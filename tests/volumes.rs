use volume::{
    idx_usize, unpack_i64, BoundingBox, HeapVolume, InsertError, Space, StackVolume, Subvolume,
    Volume, VolumeExt,
};

fn filled(item: i32, b: BoundingBox) -> HeapVolume<i32> {
    HeapVolume::new(item, b)
}

#[test]
fn filled_region_reads_back() {
    let vol = HeapVolume::new(10u8, BoundingBox::new([0, 0, 0], [6, 6, 6]));
    assert_eq!(vol.get([3, 3, 3]), Some(&10));
    let mut it = vol.iter();
    let mut count = 0;
    while let Some(v) = it.next() {
        assert_eq!(*v, 10);
        count += 1;
    }
    assert_eq!(count, 216);
}

#[test]
fn negative_region_reads_and_swaps() {
    let mut vol = filled(10, BoundingBox::new([-9, -9, -9], [-2, -2, -2]));
    assert_eq!(vol.get([0, 0, 0]), None);
    assert_eq!(vol.get([-4, -4, -4]), Some(&10));
    assert_eq!(vol.swap([-4, -4, -4], 50), Some(10));
    assert_eq!(vol.get([-4, -4, -4]), Some(&50));
}

#[test]
fn swap_round_trip_and_outside_swap() {
    let mut vol = filled(1, BoundingBox::new([0, 0, 0], [3, 3, 3]));
    let before = vol.get([1, 2, 0]).copied();
    assert_eq!(vol.swap([1, 2, 0], 7), before);
    assert_eq!(vol.get([1, 2, 0]), Some(&7));
    assert_eq!(vol.get([2, 2, 0]), Some(&1));
    assert_eq!(vol.swap([3, 0, 0], 9), None);
    assert_eq!(vol.swap([-1i8, 0, 0], 9), None);
    let mut it = vol.iter();
    let mut sevens = 0;
    while let Some(v) = it.next() {
        assert!(*v == 1 || *v == 7);
        if *v == 7 {
            sevens += 1;
        }
    }
    assert_eq!(sevens, 1);
}

#[test]
fn set_reports_whether_it_wrote() {
    let mut vol = filled(0, BoundingBox::new([0, 0, 0], [2, 2, 2]));
    assert!(vol.set([1, 1, 1], 5));
    assert!(!vol.set([2, 1, 1], 5));
    assert_eq!(vol.get([1, 1, 1]), Some(&5));
}

#[test]
fn insert_at_offset() {
    let mut big = filled(10, BoundingBox::new([0, 0, 0], [16, 16, 16]));
    let small = filled(20, BoundingBox::new([0, 0, 0], [6, 6, 6]));
    assert_eq!(big.insert([4, 4, 4], &small), Ok(()));
    let mut it = big.iter_indices();
    while let Some(p) = it.next() {
        let inside = p.iter().all(|&c| (4..10).contains(&c));
        let expected = if inside { 20 } else { 10 };
        assert_eq!(big.get(p), Some(&expected));
    }
}

#[test]
fn insert_escaping_changes_nothing() {
    let mut big = filled(10, BoundingBox::new([0, 0, 0], [16, 16, 16]));
    let small = filled(20, BoundingBox::new([0, 0, 0], [6, 6, 6]));
    assert_eq!(big.insert([12, 12, 12], &small), Err(InsertError::VolumeEscapesBounds));
    assert_eq!(big.insert([-1, 0, 0], &small), Err(InsertError::VolumeEscapesBounds));
    assert_eq!(big.insert([u64::MAX, 0, 0], &small), Err(InsertError::VolumeEscapesBounds));
    let mut it = big.iter();
    while let Some(v) = it.next() {
        assert_eq!(*v, 10);
    }
}

#[test]
fn insert_anyways_copies_what_fits() {
    let mut big = filled(10, BoundingBox::new([0, 0, 0], [16, 16, 16]));
    let small = filled(20, BoundingBox::new([0, 0, 0], [6, 6, 6]));
    big.insert_anyways([12, 12, 12], &small);
    let mut it = big.iter_indices();
    while let Some(p) = it.next() {
        let inside = p.iter().all(|&c| c >= 12);
        let expected = if inside { 20 } else { 10 };
        assert_eq!(big.get(p), Some(&expected));
    }
    big.insert_anyways([u64::MAX, u64::MAX, u64::MAX], &small);
    big.insert_anyways([i64::MIN, 0, 0], &small);
    assert_eq!(big.get([0, 0, 0]), Some(&10));
}

#[test]
fn insert_from_a_relocated_source() {
    let mut dst = filled(0, BoundingBox::new([-4, -4, -4], [4, 4, 4]));
    let mut src = filled(0, BoundingBox::new([10, 10, 10], [12, 11, 11]));
    src.swap([10, 10, 10], 1);
    src.swap([11, 10, 10], 2);
    assert_eq!(dst.insert([-12i32, -12, -12], &src), Ok(()));
    assert_eq!(dst.get([-2, -2, -2]), Some(&1));
    assert_eq!(dst.get([-1, -2, -2]), Some(&2));
    assert_eq!(dst.get([0, -2, -2]), Some(&0));
}

#[test]
fn apply_and_fill() {
    let mut vol = filled(1, BoundingBox::new([0, 0, 0], [3, 3, 3]));
    vol.idx_apply(|p: [i64; 3]| if p[0] == 0 { Some(5) } else { None });
    assert_eq!(vol.get([0, 2, 1]), Some(&5));
    assert_eq!(vol.get([1, 2, 1]), Some(&1));
    vol.apply(|p: [i64; 3], v: &i32| if p[2] == 2 { Some(*v * 10) } else { None });
    assert_eq!(vol.get([0, 0, 2]), Some(&50));
    assert_eq!(vol.get([1, 0, 2]), Some(&10));
    assert_eq!(vol.get([1, 0, 1]), Some(&1));
    vol.fill(8);
    let mut it = vol.iter();
    while let Some(v) = it.next() {
        assert_eq!(*v, 8);
    }
}

#[test]
fn local_and_world_spaces() {
    let mut vol = filled(3, BoundingBox::new([-9, -9, -9], [-2, -2, -2]));
    assert_eq!(vol.swap_in(Space::Localspace([0u8, 0, 0]), 4), Some(3));
    assert_eq!(vol.get([-9, -9, -9]), Some(&4));
    assert_eq!(vol.get_in(Space::Worldspace([-9, -9, -9])), Some(&4));
    assert_eq!(vol.get_in(Space::Localspace([0, 0, 0])), Some(&4));
    assert_eq!(vol.get_in(Space::Localspace([7, 0, 0])), None);
    assert_eq!(vol.get_in(Space::Worldspace([0, 0, 0])), None);
}

#[test]
fn stack_volume_access() {
    let mut vol: StackVolume<u8, 2, 3, 4> = StackVolume::new(5);
    assert_eq!(vol.bounding_box(), BoundingBox::new([0, 0, 0], [2, 3, 4]));
    assert_eq!(vol.get([1, 2, 3]), Some(&5));
    assert_eq!(vol.get([2, 0, 0]), None);
    assert_eq!(vol.swap([1, 2, 3], 9), Some(5));
    assert_eq!(vol.get([1, 2, 3]), Some(&9));
    let mut it = vol.iter();
    let mut count = 0;
    while let Some(_) = it.next() {
        count += 1;
    }
    assert_eq!(count, 24);

    let data = [[[1u8, 2], [3, 4]], [[5, 6], [7, 8]]];
    let vol: StackVolume<u8, 2, 2, 2> = StackVolume::from_array(data);
    assert_eq!(vol.get([1, 0, 1]), Some(&6));
    assert_eq!(vol.get([0, 1, 0]), Some(&3));
}

#[test]
fn stack_into_heap_insert() {
    let mut heap = filled(0, BoundingBox::new([0, 0, 0], [4, 4, 4]));
    let stack: StackVolume<i32, 2, 2, 2> = StackVolume::new(7);
    assert_eq!(heap.insert([1, 1, 1], &stack), Ok(()));
    assert_eq!(heap.get([1, 1, 1]), Some(&7));
    assert_eq!(heap.get([2, 2, 2]), Some(&7));
    assert_eq!(heap.get([3, 3, 3]), Some(&0));
}

#[test]
fn subvolume_restricts_access() {
    let mut vol = filled(1, BoundingBox::new([0, 0, 0], [8, 8, 8]));
    {
        let mut sub = Subvolume::new(&mut vol, BoundingBox::new([2, 2, 2], [4, 4, 4])).unwrap();
        assert_eq!(sub.get([3, 3, 3]), Some(&1));
        assert_eq!(sub.get([5, 5, 5]), None);
        assert_eq!(sub.swap([2, 3, 2], 6), Some(1));
        assert_eq!(sub.swap([6, 6, 6], 6), None);
        assert!(sub.contains([3, 3, 3]));
        assert!(!sub.contains([4, 3, 3]));
    }
    assert_eq!(vol.get([2, 3, 2]), Some(&6));
    assert_eq!(vol.get([6, 6, 6]), Some(&1));
}

#[test]
fn subvolume_resize() {
    let mut vol = filled(1, BoundingBox::new([0, 0, 0], [8, 8, 8]));
    let sub = Subvolume::new(&mut vol, BoundingBox::new([2, 2, 2], [4, 4, 4])).unwrap();
    let mut sub = sub.resize(BoundingBox::new([5, 5, 5], [7, 7, 7])).unwrap();
    assert_eq!(sub.get([3, 3, 3]), None);
    assert_eq!(sub.swap([6, 6, 6], 2), Some(1));
    assert_eq!(sub.bounding_box(), BoundingBox::new([5, 5, 5], [7, 7, 7]));
    let err = sub.resize(BoundingBox::new([5, 5, 5], [8, 8, 8])).err().unwrap();
    assert_eq!(err.provided(), BoundingBox::new([5, 5, 5], [8, 8, 8]));
    assert_eq!(err.expected(), Some(BoundingBox::new([0, 0, 0], [8, 8, 8])));
    assert_eq!(vol.get([6, 6, 6]), Some(&2));
}

#[test]
fn subvolume_oversized_bounds() {
    let mut vol = filled(1, BoundingBox::new([0, 0, 0], [8, 8, 8]));
    let err = Subvolume::new(&mut vol, BoundingBox::new([-1, 0, 0], [4, 4, 4])).err().unwrap();
    assert_eq!(err.provided(), BoundingBox::new([-1, 0, 0], [4, 4, 4]));
    assert_eq!(err.expected(), Some(BoundingBox::new([0, 0, 0], [8, 8, 8])));
    assert!(Subvolume::new(&mut vol, BoundingBox::new([0, 0, 0], [8, 8, 8])).is_err());
    assert_eq!(vol.get([0, 0, 0]), Some(&1));
}

#[test]
fn index_casts() {
    assert_eq!(unpack_i64([60i32, 43, 90]), Some([60, 43, 90]));
    assert_eq!(unpack_i64([u64::MAX, 0, 7]), None);
    assert_eq!(unpack_i64([u32::MAX, u32::MIN, 7]), Some([u32::MAX as i64, 0, 7]));
    assert_eq!(idx_usize([-2i64, 60, 10]), None);
    assert_eq!(idx_usize([2u8, 60, 10]), Some([2, 60, 10]));
}

#[test]
fn heap_volume_equality() {
    let a = filled(3, BoundingBox::new([0, 0, 0], [2, 3, 4]));
    let mut b = filled(3, BoundingBox::new([2, 3, 4], [0, 0, 0]));
    assert!(a == b);
    b.swap([1, 2, 3], 4);
    assert!(a != b);
    b.swap([1, 2, 3], 3);
    assert!(a == b);
    let c = filled(3, BoundingBox::new([1, 0, 0], [3, 3, 4]));
    assert!(a != c);
}
