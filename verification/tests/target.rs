use softrast::target::{RenderTarget, FAR};

#[test]
fn a_new_target_is_cleared_to_black() {
    let target = RenderTarget::new(4, 3);
    assert_eq!(target.width(), 4);
    assert_eq!(target.height(), 3);
    assert_eq!(target.color().len(), 12);
    assert_eq!(target.depth().len(), 12);
    assert!(target.color().iter().all(|c| *c == 0));
    assert!(target.depth().iter().all(|d| *d == FAR));
}

#[test]
fn clear_resets_whatever_was_drawn() {
    let mut target = RenderTarget::new(3, 2);
    target.set_clear_color(0x0010_2030);
    for i in 0..6 {
        target.color[i] = i as u32 + 1;
        target.depth[i] = i as i32 - 3;
    }
    target.clear();
    assert_eq!(target.color(), &[0x0010_2030; 6]);
    assert_eq!(target.depth(), &[FAR; 6]);
    target.clear();
    assert_eq!(target.color(), &[0x0010_2030; 6]);
    assert_eq!(target.depth(), &[FAR; 6]);
}

#[test]
fn a_surface_without_area_has_no_target() {
    assert!(RenderTarget::for_surface(0, 10).is_none());
    assert!(RenderTarget::for_surface(10, 0).is_none());
    assert!(RenderTarget::for_surface(0, 0).is_none());
    let target = RenderTarget::for_surface(2, 5).unwrap();
    assert_eq!((target.width(), target.height(), target.color().len()), (2, 5, 10));
}

#[test]
fn slices_tile_the_rows() {
    for height in 0..40u32 {
        for workers in 1..12usize {
            let mut target = RenderTarget::new(3, height);
            let slices = target.create_slices_with(workers);
            let rows = (height as usize + workers - 1) / workers;
            let mut next = 0u32;
            for (i, slice) in slices.iter().enumerate() {
                assert_eq!(slice.start(), next);
                assert_eq!(slice.start() as usize, i * rows);
                assert!(slice.start() < slice.end());
                assert!((slice.end() - slice.start()) as usize <= rows);
                assert_eq!(slice.width(), 3);
                assert_eq!(slice.height(), height);
                assert_eq!(slice.color_slice.len(), ((slice.end() - slice.start()) * 3) as usize);
                assert_eq!(slice.depth_slice.len(), slice.color_slice.len());
                next = slice.end();
            }
            assert_eq!(next, height);
            assert!(slices.len() <= workers);
            if height > 0 {
                assert_eq!(slices.len(), (height as usize + rows - 1) / rows);
            } else {
                assert!(slices.is_empty());
            }
        }
    }
}

#[test]
fn more_workers_than_rows_give_one_row_each() {
    let mut target = RenderTarget::new(2, 3);
    let slices = target.create_slices_with(64);
    assert_eq!(slices.len(), 3);
    assert_eq!((slices[2].start(), slices[2].end()), (2, 3));
}

#[test]
fn the_last_slice_may_be_shorter() {
    let mut target = RenderTarget::new(1, 10);
    let slices = target.create_slices_with(4);
    let ranges: Vec<(u32, u32)> = slices.iter().map(|s| (s.start(), s.end())).collect();
    assert_eq!(ranges, vec![(0, 3), (3, 6), (6, 9), (9, 10)]);
}

#[test]
fn slices_write_through_to_the_frame() {
    let mut target = RenderTarget::new(3, 5);
    {
        let mut slices = target.create_slices_with(2);
        assert_eq!(slices.len(), 2);
        slices[0].set_color(1, 2, 0xaa);
        slices[1].set_pixel(2, 4, 0xbb, 17);
        assert_eq!(slices[0].color_at(1, 2), 0xaa);
        assert_eq!(slices[1].depth_at(2, 4), 17);
        assert_eq!(slices[1].color_at(0, 3), 0);
        assert_eq!(slices[0].depth_at(1, 2), FAR);
    }
    for y in 0..5usize {
        for x in 0..3usize {
            let expected = match (x, y) {
                (1, 2) => (0xaa, FAR),
                (2, 4) => (0xbb, 17),
                _ => (0, FAR),
            };
            assert_eq!((target.color()[y * 3 + x], target.depth()[y * 3 + x]), expected);
        }
    }
}

#[test]
fn slices_for_the_thread_pool_tile_the_rows() {
    let mut target = RenderTarget::new(2, 9);
    let slices = target.create_slices();
    assert!(!slices.is_empty());
    let mut next = 0u32;
    for slice in slices.iter() {
        assert_eq!(slice.start(), next);
        assert!(slice.start() < slice.end());
        next = slice.end();
    }
    assert_eq!(next, 9);
}
