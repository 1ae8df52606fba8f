use volume::{BoundingBox, HeapVolume, Volume, VolumeExt};

/// An example heap volume of `u8`s over (0, 0, 0) -> (6, 6, 6), filled with `10`.
fn example_heap_volume() -> HeapVolume<u8> {
    HeapVolume::new(10u8, BoundingBox::new([0, 0, 0], [6, 6, 6]))
}

#[test]
fn heap_volume_creation() {
    let vol = example_heap_volume();

    for z in 0..6 {
        for y in 0..6 {
            for x in 0..6 {
                let idx = [x, y, z];

                assert!(vol.contains(idx));
                assert_eq!(vol.get(idx), Some(&10u8));
            }
        }
    }
}

#[test]
fn heap_volume_iteration() {
    let vol = example_heap_volume();
    let mut idx_iterator = vol.bounding_box().into_iter();

    for z in 0..6i64 {
        for y in 0..6i64 {
            for x in 0..6i64 {
                let idx = [x, y, z];

                assert_eq!(idx_iterator.next(), Some(idx));
            }
        }
    }

    assert_eq!(idx_iterator.next(), None);

    let vol = HeapVolume::new(10u8, BoundingBox::new([0, 0, 0], [6, 5, 7]));
    let mut idx_iterator = vol.bounding_box().into_iter();

    let mut c = 0;
    while let Some(_) = idx_iterator.next() {
        c += 1;
    }

    assert_eq!(c, 6 * 5 * 7);
    assert_eq!(c, vol.bounding_box().capacity());

    let mut vol_iterator = vol.iter();
    let mut c = 0;
    while let Some(val) = vol_iterator.next() {
        c += 1;
        assert_eq!(val, &10);
    }

    assert_eq!(c, vol.bounding_box().capacity());
}

#[test]
fn heap_volume_access() {
    const N: u8 = 40;

    let mut vol = HeapVolume::new(N, BoundingBox::new([0, 0, 0], [8, 8, 8]));

    assert_eq!(vol.get([5i32, 5, 5]), Some(&N));
    assert_eq!(vol.swap([5i32, 5, 5], 80), Some(N));
    assert_eq!(vol.get([5i32, 5, 5]), Some(&80));

    let slot = vol.get_mut([5i32, 5, 5]).unwrap();
    assert_eq!(slot, &mut 80);

    *slot += 10;
    assert_eq!(vol.get([5i32, 5, 5]), Some(&90));

    assert_eq!(*vol.get([5i32, 5, 5]).unwrap(), 90u8);
    *vol.get_mut([5i32, 5, 5]).unwrap() = 10;
    assert_eq!(*vol.get([5i32, 5, 5]).unwrap(), 10);
}

#[test]
fn heap_volume_unusual_bounds() {
    let mut vol = HeapVolume::new(10, BoundingBox::new([-9, -9, -9], [-2, -2, -2]));

    assert_eq!(vol.get([0i32, 0, 0]), None);
    assert_eq!(vol.get([3i32, 3, 3]), None);
    assert_eq!(vol.get([-4i32, -4, -4]), Some(&10));

    assert_eq!(vol.swap([-4i32, -4, -4], 50), Some(10));
    assert_eq!(vol.get([-4i32, -4, -4]), Some(&50));

    let mut idx_iterator = vol.iter_indices();
    let mut c = 0;
    for z in -9..-2i64 {
        for y in -9..-2i64 {
            for x in -9..-2i64 {
                let idx = idx_iterator.next();
                c += 1;

                assert_eq!(idx, Some([x, y, z]));
            }
        }
    }

    assert_eq!(idx_iterator.next(), None);
    assert_eq!(c, vol.bounding_box().capacity());

    assert_eq!(vol.get([-9, -9, -9]), Some(&10));
    assert_eq!(vol.get([-2, -2, -2]), None);
}

#[test]
fn heap_volume_insertion() {
    let mut vol1 = HeapVolume::new(10, BoundingBox::new_origin([16i32, 16, 16]));
    let vol2 = HeapVolume::new(20, BoundingBox::new([4i32, 4, 4], [10i32, 10, 10]));

    vol1.insert([0i32, 0, 0], &vol2).unwrap();

    for n in 0..4i32 {
        assert_eq!(*vol1.get([n, n, n]).unwrap(), 10);
    }

    for n in 4..10i32 {
        assert_eq!(*vol1.get([n, n, n]).unwrap(), 20);
    }

    for n in 10..16i32 {
        assert_eq!(*vol1.get([n, n, n]).unwrap(), 10);
    }

    assert_eq!(*vol1.get([4i32, 4, 4]).unwrap(), 20);
    assert_eq!(*vol1.get([9i32, 4, 4]).unwrap(), 20);
    assert_eq!(*vol1.get([4i32, 9, 4]).unwrap(), 20);
    assert_eq!(*vol1.get([4i32, 4, 9]).unwrap(), 20);

    assert_eq!(*vol1.get([4i32, 9, 9]).unwrap(), 20);
    assert_eq!(*vol1.get([9i32, 9, 4]).unwrap(), 20);
    assert_eq!(*vol1.get([9i32, 9, 9]).unwrap(), 20);
    assert_eq!(*vol1.get([9i32, 4, 9]).unwrap(), 20);
}

#[test]
fn nalgebra_bounding_box_support() {
    let v1 = nalgebra::Vector3::new(0, 0, 0);
    let v2 = nalgebra::Vector3::new(10, 10, 10);

    let vol = HeapVolume::new(10, BoundingBox::new([v1.x, v1.y, v1.z], [v2.x, v2.y, v2.z]));

    assert_eq!(vol.bounding_box(), BoundingBox::new([0, 0, 0], [10, 10, 10]));
}
