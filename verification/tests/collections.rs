use homun_runtime::stdlib::collection::{
    all, any, count, enumerate, flatten, index_of, pop, push, remove, reversed, sorted, to_vec,
    unique, zip,
};
use homun_runtime::stdlib::deque::{
    deque_is_empty, deque_new, deque_pop_back, deque_pop_front, deque_push_back,
    deque_push_front,
};
use homun_runtime::stdlib::dict::{entries, insert, keys, remove_key, values};
use homun_runtime::stdlib::math::{abs, clamp, max, min};
use homun_runtime::stdlib::stack::{
    stack_is_empty, stack_new, stack_peek, stack_pop, stack_push,
};
use homun_runtime::stdlib::HomunLen;
use std::collections::{HashMap, HashSet};

#[test]
fn test_sorted_examples() {
    assert_eq!(sorted(&[3, 1, 2]), vec![1, 2, 3]);
    assert_eq!(sorted(&[2, 1, 2, 1]), vec![1, 1, 2, 2]);
    assert_eq!(sorted(&[-1, i32::MIN, i32::MAX, 0]), vec![i32::MIN, -1, 0, i32::MAX]);
    assert_eq!(sorted::<i32>(&[]), Vec::<i32>::new());
    assert_eq!(
        sorted(&["b".to_string(), "a".to_string(), "ab".to_string()]),
        vec!["a".to_string(), "ab".to_string(), "b".to_string()]
    );
}

#[test]
fn test_sorted_leaves_its_argument() {
    let v = vec![3, 1, 2];
    let _ = sorted(&v);
    assert_eq!(v, vec![3, 1, 2]);
}

#[test]
fn test_reversed_examples() {
    assert_eq!(reversed(&[1, 2, 3]), vec![3, 2, 1]);
    assert_eq!(reversed(&[1]), vec![1]);
    assert_eq!(reversed::<i32>(&[]), Vec::<i32>::new());
}

#[test]
fn test_to_vec_examples() {
    assert_eq!(to_vec(&[1, 2, 3]), vec![1, 2, 3]);
    assert_eq!(to_vec::<i32>(&[]), Vec::<i32>::new());
}

#[test]
fn test_enumerate_examples() {
    assert_eq!(enumerate(&['a', 'b', 'c']), vec![(0, 'a'), (1, 'b'), (2, 'c')]);
    assert_eq!(enumerate::<char>(&[]), Vec::<(i32, char)>::new());
}

#[test]
fn test_zip_sequences() {
    assert_eq!(zip(&[1, 2, 3], &['a', 'b', 'c']), vec![(1, 'a'), (2, 'b'), (3, 'c')]);
    assert_eq!(zip(&[1, 2, 3], &['a']), vec![(1, 'a')]);
    assert_eq!(zip(&[1], &['a', 'b']), vec![(1, 'a')]);
    assert_eq!(zip::<i32, char>(&[], &['a']), Vec::<(i32, char)>::new());
}

#[test]
fn test_flatten_examples() {
    assert_eq!(flatten(&[vec![1, 2], vec![], vec![3], vec![4, 5]]), vec![1, 2, 3, 4, 5]);
    assert_eq!(flatten::<i32>(&[]), Vec::<i32>::new());
    assert_eq!(flatten::<i32>(&[vec![], vec![]]), Vec::<i32>::new());
}

#[test]
fn test_any_all_count() {
    let v = [1, 2, 3, 4, 5, 6];
    assert!(any(&v, |x| x > 5));
    assert!(!any(&v, |x| x > 6));
    assert!(!any(&[] as &[i32], |_| true));
    assert!(all(&v, |x| x > 0));
    assert!(!all(&v, |x| x > 1));
    assert!(all(&[] as &[i32], |_| false));
    assert_eq!(count(&v, |x| x % 2 == 0), 3);
    assert_eq!(count(&v, |_| false), 0);
    assert_eq!(count(&v, |_| true), 6);
    assert_eq!(count(&[] as &[i32], |_| true), 0);
}

#[test]
fn test_any_and_all_stop_early() {
    let v = [1, 2, 3, 4];
    let calls = std::cell::Cell::new(0);
    assert!(any(&v, |x| {
        calls.set(calls.get() + 1);
        x == 2
    }));
    assert_eq!(calls.get(), 2);
    calls.set(0);
    assert!(!all(&v, |x| {
        calls.set(calls.get() + 1);
        x < 3
    }));
    assert_eq!(calls.get(), 3);
}

#[test]
fn test_unique_examples() {
    assert_eq!(unique(&[3, 1, 3, 2, 1, 3]), vec![3, 1, 2]);
    assert_eq!(unique(&[1, 1, 1]), vec![1]);
    assert_eq!(unique::<i32>(&[]), Vec::<i32>::new());
    assert_eq!(
        unique(&["b".to_string(), "a".to_string(), "b".to_string()]),
        vec!["b".to_string(), "a".to_string()]
    );
}

#[test]
fn test_index_of_examples() {
    assert_eq!(index_of(&[5, 6, 7, 6], &6), 1);
    assert_eq!(index_of(&[5, 6, 7, 6], &5), 0);
    assert_eq!(index_of(&[5, 6, 7, 6], &8), -1);
    assert_eq!(index_of(&[] as &[i32], &8), -1);
}

#[test]
fn test_push_pop_remove() {
    let mut v = vec![1, 2];
    push(&mut v, 3);
    assert_eq!(v, vec![1, 2, 3]);
    assert_eq!(pop(&mut v), Some(3));
    assert_eq!(v, vec![1, 2]);
    assert_eq!(pop(&mut v), Some(2));
    assert_eq!(pop(&mut v), Some(1));
    assert_eq!(pop(&mut v), None);
    assert_eq!(v, Vec::<i32>::new());
}

#[test]
fn test_remove_examples() {
    let mut v = vec![10, 20, 30, 40];
    assert_eq!(remove(&mut v, 1), 20);
    assert_eq!(v, vec![10, 30, 40]);
    assert_eq!(remove(&mut v, -1), 40);
    assert_eq!(v, vec![10, 30]);
    // further back than the first element takes the first
    assert_eq!(remove(&mut v, -5), 10);
    assert_eq!(v, vec![30]);
    assert_eq!(remove(&mut v, 0), 30);
    assert_eq!(v, Vec::<i32>::new());
}

#[test]
fn test_stack() {
    let mut s: Vec<i32> = stack_new();
    assert!(stack_is_empty(&s));
    assert_eq!(stack_peek(&s), None);
    assert_eq!(stack_pop(&mut s), None);
    stack_push(&mut s, 1);
    stack_push(&mut s, 2);
    assert!(!stack_is_empty(&s));
    assert_eq!(stack_peek(&s), Some(2));
    assert_eq!(s.len(), 2);
    assert_eq!(stack_pop(&mut s), Some(2));
    assert_eq!(stack_pop(&mut s), Some(1));
    assert_eq!(stack_pop(&mut s), None);
    assert!(stack_is_empty(&s));
}

#[test]
fn test_deque() {
    let mut d = deque_new::<i32>();
    assert!(deque_is_empty(&d));
    assert_eq!(deque_pop_front(&mut d), None);
    assert_eq!(deque_pop_back(&mut d), None);
    deque_push_back(&mut d, 2);
    deque_push_back(&mut d, 3);
    deque_push_front(&mut d, 1);
    assert!(!deque_is_empty(&d));
    assert_eq!(d.iter().copied().collect::<Vec<i32>>(), vec![1, 2, 3]);
    assert_eq!(deque_pop_front(&mut d), Some(1));
    assert_eq!(deque_pop_back(&mut d), Some(3));
    assert_eq!(deque_pop_back(&mut d), Some(2));
    assert!(deque_is_empty(&d));
}

#[test]
fn test_mapping_functions() {
    let mut d: HashMap<i32, String> = HashMap::new();
    insert(&mut d, 1, "one".to_string());
    insert(&mut d, 2, "two".to_string());
    insert(&mut d, 1, "uno".to_string());
    assert_eq!(d.len(), 2);
    assert_eq!(d[&1], "uno");
    let mut listed = keys(&d);
    listed.sort();
    assert_eq!(listed, vec![1, 2]);
    let mut listed = values(&d);
    listed.sort();
    assert_eq!(listed, vec!["two".to_string(), "uno".to_string()]);
    let mut listed = entries(&d);
    listed.sort();
    assert_eq!(listed, vec![(1, "uno".to_string()), (2, "two".to_string())]);
    assert_eq!(remove_key(&mut d, &1), Some("uno".to_string()));
    assert_eq!(remove_key(&mut d, &1), None);
    assert_eq!(keys(&d), vec![2]);
    assert_eq!(remove_key(&mut d, &2), Some("two".to_string()));
    assert_eq!(keys(&d), Vec::<i32>::new());
    assert_eq!(values(&d), Vec::<String>::new());
    assert_eq!(entries(&d), Vec::<(i32, String)>::new());
}

#[test]
fn test_values_keeps_equal_values() {
    let mut d: HashMap<i32, i32> = HashMap::new();
    insert(&mut d, 1, 7);
    insert(&mut d, 2, 7);
    assert_eq!(values(&d), vec![7, 7]);
}

#[test]
fn test_abs_examples() {
    assert_eq!(abs(5), 5);
    assert_eq!(abs(-5), 5);
    assert_eq!(abs(0), 0);
    assert_eq!(abs(-7i64), 7);
    assert_eq!(abs(i32::MAX), i32::MAX);
    assert_eq!(abs(i32::MIN + 1), i32::MAX);
    assert_eq!(abs(-1.5f64), 1.5);
}

#[test]
fn test_min_max_examples() {
    assert_eq!(min(1, 2), 1);
    assert_eq!(min(2, 1), 1);
    assert_eq!(min(2, 2), 2);
    assert_eq!(max(1, 2), 2);
    assert_eq!(max(2, 1), 2);
    assert_eq!(max("a", "b"), "b");
    assert_eq!(min("a", "b"), "a");
    // where the two cannot be compared, the second comes back
    assert!(min(f64::NAN, 1.0) == 1.0);
    assert!(max(f64::NAN, 1.0) == 1.0);
    assert!(min(1.0, f64::NAN).is_nan());
}

#[test]
fn test_clamp_examples() {
    assert_eq!(clamp(5, 0, 10), 5);
    assert_eq!(clamp(-5, 0, 10), 0);
    assert_eq!(clamp(15, 0, 10), 10);
    assert_eq!(clamp(0, 0, 10), 0);
    assert_eq!(clamp(10, 0, 10), 10);
    // with the bounds out of order the lower bound is tried first
    assert_eq!(clamp(5, 10, 0), 10);
    assert_eq!(clamp(20, 10, 0), 0);
}

#[test]
fn test_homun_len() {
    assert_eq!(vec![1, 2, 3].homun_len(), 3);
    assert_eq!(Vec::<i32>::new().homun_len(), 0);
    let mut d: HashMap<i32, i32> = HashMap::new();
    d.insert(1, 1);
    assert_eq!(d.homun_len(), 1);
    let s: HashSet<i32> = [1, 2, 2].into_iter().collect();
    assert_eq!(s.homun_len(), 2);
    assert_eq!("abc".homun_len(), 3);
    // a string is measured in bytes
    assert_eq!("héllo".homun_len(), 6);
    assert_eq!("日本語".to_string().homun_len(), 9);
    assert_eq!("".homun_len(), 0);
}

#[test]
fn test_homun_len_text_keyed_mapping() {
    let mut d: vstd::hash_map::StringHashMap<i32> = vstd::hash_map::StringHashMap::new();
    assert_eq!(d.homun_len(), 0);
    d.insert("a".to_string(), 1);
    d.insert("a".to_string(), 2);
    d.insert("b".to_string(), 2);
    assert_eq!(d.homun_len(), 2);
}
