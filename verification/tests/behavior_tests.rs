use static_vector::StaticVector;
use std::cell::Cell;
use std::rc::Rc;

#[test]
fn test_fill_to_capacity() {
    let mut vec = StaticVector::<i32, 4>::new();
    vec.push(1);
    vec.push(2);
    vec.push(3);
    vec.push(4);
    assert_eq!(vec.len(), 4);
    assert_eq!(vec.to_vec(), vec![1, 2, 3, 4]);
}

#[test]
fn test_length_never_exceeds_capacity() {
    let mut vec = StaticVector::<i32, 3>::new();
    assert!(vec.len() <= vec.capacity());
    vec.push(1);
    assert!(vec.len() <= vec.capacity());
    vec.push(2);
    vec.push(3);
    assert!(vec.len() <= vec.capacity());
    vec.resize(1, 0);
    assert!(vec.len() <= vec.capacity());
    vec.insert(0, 9);
    assert!(vec.len() <= vec.capacity());
}

#[test]
fn test_push_then_pop_identity() {
    let mut vec = StaticVector::<i32, 4>::from_values(vec![7, 8]);
    vec.push(9);
    assert_eq!(vec.pop(), Some(9));
    assert_eq!(vec.to_vec(), vec![7, 8]);
}

#[test]
fn test_insert_front() {
    let mut vec = StaticVector::<i32, 8>::from_values(vec![2, 3, 4]);
    vec.insert(0, 1);
    assert_eq!(vec.len(), 4);
    assert_eq!(vec.to_vec(), vec![1, 2, 3, 4]);
}

#[test]
fn test_insert_mid_shifts_tail_up() {
    let mut vec = StaticVector::<i32, 8>::from_values(vec![1, 2, 4, 5]);
    vec.insert(2, 3);
    assert_eq!(*vec.get(2), 3);
    assert_eq!(*vec.get(3), 4);
    assert_eq!(*vec.get(4), 5);
    assert_eq!(vec.to_vec(), vec![1, 2, 3, 4, 5]);
}

#[test]
fn test_insert_at_length_appends() {
    let mut vec = StaticVector::<i32, 4>::from_values(vec![1, 2]);
    vec.insert(2, 3);
    assert_eq!(vec.to_vec(), vec![1, 2, 3]);
}

#[test]
fn test_last_and_last_mut() {
    let mut vec = StaticVector::<i32, 4>::new();
    assert_eq!(vec.last(), None);
    assert!(vec.last_mut().is_none());
    vec.push(5);
    vec.push(6);
    assert_eq!(vec.last(), Some(&6));
    if let Some(last) = vec.last_mut() {
        *last = 60;
    }
    assert_eq!(vec.to_vec(), vec![5, 60]);
}

#[test]
fn test_get_mut_writes_through() {
    let mut vec = StaticVector::<i32, 4>::from_values(vec![1, 2, 3]);
    *vec.get_mut(1) = 20;
    assert_eq!(vec.to_vec(), vec![1, 20, 3]);
}

#[test]
fn test_pop_if_empty() {
    let mut vec = StaticVector::<i32, 4>::new();
    assert_eq!(vec.pop_if(|_x| true), None);
    assert!(vec.is_empty());
}

#[test]
fn test_pop_if_predicate_holds() {
    let mut vec = StaticVector::<i32, 4>::from_values(vec![1, 2, 3]);
    assert_eq!(vec.pop_if(|x| *x == 3), Some(3));
    assert_eq!(vec.to_vec(), vec![1, 2]);
}

#[test]
fn test_pop_if_predicate_fails() {
    let mut vec = StaticVector::<i32, 4>::from_values(vec![1, 2, 3]);
    assert_eq!(vec.pop_if(|x| *x == 7), None);
    assert_eq!(vec.to_vec(), vec![1, 2, 3]);
}

#[test]
fn test_clear() {
    let mut vec = StaticVector::<String, 4>::from_values(vec!["a".to_string(), "b".to_string()]);
    vec.clear();
    assert!(vec.is_empty());
    assert_eq!(vec.capacity(), 4);
}

#[test]
fn test_truncate_shorter_and_noop() {
    let mut vec = StaticVector::<i32, 8>::from_values(vec![1, 2, 3, 4, 5]);
    vec.truncate(7);
    assert_eq!(vec.to_vec(), vec![1, 2, 3, 4, 5]);
    vec.truncate(2);
    assert_eq!(vec.to_vec(), vec![1, 2]);
    vec.truncate(0);
    assert!(vec.is_empty());
}

#[test]
fn test_resize_round_trip_restores_contents() {
    let mut vec = StaticVector::<i32, 10>::from_values(vec![1, 2, 3, 4, 5]);
    vec.resize(7, 42);
    assert_eq!(vec.to_vec(), vec![1, 2, 3, 4, 5, 42, 42]);
    vec.resize(5, 42);
    assert_eq!(vec.to_vec(), vec![1, 2, 3, 4, 5]);
}

#[test]
fn test_from_slice_copies_whole_source() {
    let vec = StaticVector::<i32, 6>::from_slice(&[1, 2, 3]);
    assert_eq!(vec.len(), 3);
    assert_eq!(vec.capacity(), 6);
    assert_eq!(vec.to_vec(), vec![1, 2, 3]);
}

#[test]
fn test_from_slice_truncates_long_source() {
    let vec = StaticVector::<i32, 2>::from_slice(&[1, 2, 3, 4]);
    assert_eq!(vec.len(), 2);
    assert_eq!(vec.to_vec(), vec![1, 2]);
}

#[test]
fn test_from_array_reference() {
    let array = [1, 2, 3];
    let vec = StaticVector::<i32, 3>::from(&array);
    assert_eq!(vec.to_vec(), vec![1, 2, 3]);
    let mut mutable_array = [4, 5, 6];
    let other = StaticVector::<i32, 3>::from(&mut mutable_array);
    assert_eq!(other.to_vec(), vec![4, 5, 6]);
}

#[test]
fn test_clone_copies_live_elements() {
    let vec = StaticVector::<String, 4>::from_values(vec!["x".to_string(), "y".to_string()]);
    let copy = vec.clone();
    assert_eq!(copy.len(), 2);
    assert_eq!(copy.to_vec(), vec!["x".to_string(), "y".to_string()]);
    assert_eq!(vec.to_vec(), vec!["x".to_string(), "y".to_string()]);
}

#[test]
fn test_remove_and_remove_swap_return_same_element() {
    let mut ordered = StaticVector::<i32, 5>::from_values(vec![10, 20, 30, 40]);
    let mut swapped = StaticVector::<i32, 5>::from_values(vec![10, 20, 30, 40]);
    let a = ordered.remove(1);
    let b = swapped.remove_swap(1);
    assert_eq!(a, 20);
    assert_eq!(b, 20);
    assert_eq!(ordered.len(), 3);
    assert_eq!(swapped.len(), 3);
    assert_eq!(ordered.to_vec(), vec![10, 30, 40]);
    let mut swapped_contents = swapped.to_vec();
    swapped_contents.sort();
    assert_eq!(swapped_contents, vec![10, 30, 40]);
}

struct DropCounter {
    hits: Rc<Cell<usize>>,
}

impl Drop for DropCounter {
    fn drop(&mut self) {
        self.hits.set(self.hits.get() + 1);
    }
}

#[test]
fn test_partial_iteration_drops_each_element_once() {
    let hits = Rc::new(Cell::new(0usize));
    let mut vec = StaticVector::<DropCounter, 8>::new();
    vec.push(DropCounter { hits: hits.clone() });
    vec.push(DropCounter { hits: hits.clone() });
    vec.push(DropCounter { hits: hits.clone() });
    vec.push(DropCounter { hits: hits.clone() });
    let mut iter = vec.into_iter();
    let first = iter.next().expect("one element was yielded");
    drop(first);
    assert_eq!(hits.get(), 1);
    drop(iter);
    assert_eq!(hits.get(), 4);
}

#[test]
fn test_container_drop_drops_each_live_element_once() {
    let hits = Rc::new(Cell::new(0usize));
    let mut vec = StaticVector::<DropCounter, 8>::new();
    vec.push(DropCounter { hits: hits.clone() });
    vec.push(DropCounter { hits: hits.clone() });
    let popped = vec.pop();
    drop(popped);
    assert_eq!(hits.get(), 1);
    drop(vec);
    assert_eq!(hits.get(), 2);
}
