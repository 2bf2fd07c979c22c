use spacecam::free_list::FreeList;

fn collect(list: &FreeList<usize>) -> Vec<usize> {
    let mut it = list.iter();
    let mut out = Vec::new();
    while let Some(s) = it.next() {
        out.push(*s);
    }
    out
}

#[test]
fn test_free_list() {
    let mut list = FreeList::new();
    let idx1 = list.push(1usize);
    let idx2 = list.push(2);
    list.free(idx1);
    let idx3 = list.push(3);
    assert_eq!(idx1, idx3);
    let idx4 = list.push(4);
    list.free(idx2);
    assert_eq!(idx4, 2);
    assert_eq!(collect(&list), vec![3usize, 4]);
}

#[test]
fn push_appends_when_nothing_is_free() {
    let mut list = FreeList::new();
    assert_eq!(list.push(10usize), 0);
    assert_eq!(list.push(11), 1);
    assert_eq!(list.push(12), 2);
    assert_eq!(list.len(), 3);
    assert_eq!(list.get(1), Some(&11));
}

#[test]
fn freed_slots_are_reused_last_freed_first() {
    let mut list = FreeList::new();
    for v in 0..5usize {
        list.push(v);
    }
    assert!(list.free(1));
    assert!(list.free(3));
    assert_eq!(list.push(30), 3);
    assert_eq!(list.push(10), 1);
    assert_eq!(list.push(50), 5);
    assert_eq!(collect(&list), vec![0usize, 10, 2, 30, 4, 50]);
}

#[test]
fn double_free_reports_false() {
    let mut list = FreeList::new();
    let i = list.push(7usize);
    assert!(list.free(i));
    assert!(!list.free(i));
    assert_eq!(list.len(), 0);
    assert_eq!(list.get(i), None);
    // Only one copy of the index went on the free stack.
    assert_eq!(list.push(8), i);
    assert_eq!(list.push(9), 1);
}

#[test]
fn get_mut_writes_through() {
    let mut list = FreeList::new();
    let i = list.push(1usize);
    *list.get_mut(i).unwrap() = 42;
    assert_eq!(list.get(i), Some(&42));
    list.free(i);
    assert!(list.get_mut(i).is_none());
}

#[test]
fn len_counts_occupied_slots() {
    let mut list = FreeList::new();
    assert_eq!(list.len(), 0);
    let a = list.push('a');
    let _b = list.push('b');
    let c = list.push('c');
    assert_eq!(list.len(), 3);
    list.free(a);
    list.free(c);
    assert_eq!(list.len(), 1);
    list.push('d');
    assert_eq!(list.len(), 2);
}

#[test]
fn iter_on_empty_list_yields_nothing() {
    let list: FreeList<usize> = FreeList::new();
    assert!(collect(&list).is_empty());
    let mut it = list.iter();
    assert!(it.next().is_none());
    assert!(it.next().is_none());
}
