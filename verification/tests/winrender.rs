use tsukimi::frame::Viewport;
use tsukimi::winrender::{frame_fits, LoopAction, Msg, RenderTarget, SoftwareRenderer};

fn viewport(width: i32) -> Viewport {
    Viewport::new(width, 2 * width, 2.0f64.to_bits())
}

fn begin(width: i32, height: i32) -> RenderTarget {
    assert!(frame_fits(width, height));
    match RenderTarget::begin(width, height) {
        Some(target) => target,
        None => panic!("nothing to draw"),
    }
}

fn started() -> SoftwareRenderer {
    match SoftwareRenderer::start(0) {
        Ok(renderer) => renderer,
        Err(error) => panic!("{error}"),
    }
}

#[test]
fn nothing_is_drawn_without_a_size() {
    for (width, height) in [(0, 0), (0, 5), (5, 0), (-1, 5), (5, -1), (-2147483648, 2147483647)] {
        assert!(frame_fits(width, height));
        assert!(RenderTarget::begin(width, height).is_none());
    }
}

#[test]
fn the_stride_is_the_next_multiple_of_the_alignment() {
    for width in [1, 2, 15, 16, 17, 31, 32, 33, 639, 640, 1279, 1280, 1920] {
        let target = begin(width, 2);
        assert_eq!(target.stride, (width as usize * 4).next_multiple_of(64));
    }
    assert_eq!(begin(16, 1).stride, 64);
    assert_eq!(begin(17, 1).stride, 128);
}

#[test]
fn a_target_is_a_zeroed_buffer_with_its_layout() {
    let target = begin(17, 3);
    assert_eq!((target.width, target.height), (17, 3));
    assert_eq!(target.format, "bgr0");
    assert!(target.block_for_target_time);
    // Three rows of 128 bytes, and what aligning them can take.
    assert_eq!(target.data, vec![0u8; 384 + 63]);
}

#[test]
fn buffers_beyond_the_largest_allocation_do_not_fit() {
    assert!(frame_fits(7680, 4320));
    assert!(!frame_fits(2147483647, 2147483647));
    if isize::MAX as u128 == 0x7fff_ffff_ffff_ffff {
        // One row of the widest buffer takes 2^33 bytes.
        assert!(frame_fits(2147483647, 1073741823));
        assert!(!frame_fits(2147483647, 1073741824));
    }
}

#[test]
fn a_failed_render_gives_no_frame() {
    assert!(begin(4, 4).finish(0, -1).is_none());
    assert!(begin(4, 4).finish(16, -2147483648).is_none());
}

#[test]
fn the_frame_starts_at_an_aligned_address() {
    let target = begin(5, 5);
    for (address, start) in [(0, 0), (1, 63), (16, 48), (63, 1), (64, 0), (4096 + 48, 16)] {
        assert_eq!(target.aligned_start(address), start);
    }
    assert_eq!(target.aligned_start(usize::MAX), 1);
    for width in [1, 17, 640] {
        let target = begin(width, 3);
        let address = target.data.as_ptr() as usize;
        let start = target.aligned_start(address);
        assert!(start + target.stride * 3 <= target.data.len());
        for row in 0..3 {
            assert_eq!((address + start + row * target.stride) % 64, 0);
        }
    }
}

#[test]
fn a_finished_frame_is_opaque_and_keeps_its_colours() {
    for (address, start) in [(0, 0), (16, 48), (63, 1), (65, 63)] {
        let mut target = begin(3, 2);
        for i in 0..target.data.len() {
            target.data[i] = (i % 251) as u8;
        }
        let rendered = target.data.clone();
        let frame = target.finish(address, 0).unwrap();
        assert_eq!((frame.width, frame.height, frame.stride), (3, 2, 64));
        assert_eq!(frame.data.len(), 128);
        for y in 0..2 {
            for x in 0..3 {
                let at = y * frame.stride + x * 4;
                assert_eq!(frame.data[at..at + 3], rendered[start + at..start + at + 3]);
                assert_eq!(frame.data[at + 3], 0xff);
            }
        }
    }
}

#[test]
fn bytes_behind_the_last_whole_pixel_are_left_alone() {
    let mut target = begin(1, 1);
    target.data = vec![0; 63];
    target.data.extend([1, 2, 3, 4, 5, 6, 7]);
    assert_eq!(target.finish(1, 3).unwrap().data, vec![1, 2, 3, 0xff, 5, 6, 7]);
}

#[test]
fn a_buffer_without_a_frame_gives_no_bytes() {
    for len in [0, 1, 63] {
        let mut target = begin(1, 1);
        target.data = vec![9; len];
        assert!(target.finish(1, 0).unwrap().data.is_empty());
    }
}

#[test]
fn finishing_twice_changes_nothing_more() {
    let mut target = begin(2, 2);
    target.data[5] = 9;
    let once = target.finish(0, 0).unwrap();
    let mut again = begin(2, 2);
    again.data[..once.data.len()].copy_from_slice(&once.data);
    assert_eq!(again.finish(0, 0).unwrap().data, once.data);
}

#[test]
fn a_context_that_cannot_be_made_is_an_error() {
    let error = SoftwareRenderer::start(-18).err().unwrap();
    assert_eq!(error, "mpv_render_context_create failed with -18");
    let error = SoftwareRenderer::start(-2147483648).err().unwrap();
    assert_eq!(error, "mpv_render_context_create failed with -2147483648");
    assert!(SoftwareRenderer::start(0).is_ok());
    assert!(SoftwareRenderer::start(7).is_ok());
}

#[test]
fn frames_are_rendered_for_the_viewport_told_last() {
    let mut renderer = started();
    match renderer.handle(Some(Msg::Render)) {
        LoopAction::Render(empty) => assert!(empty == Viewport::default()),
        other => panic!("{other:?}"),
    }
    assert!(matches!(renderer.handle(Some(Msg::Viewport(viewport(10)))), LoopAction::Wait));
    assert!(matches!(renderer.handle(Some(Msg::Viewport(viewport(20)))), LoopAction::Wait));
    for _ in 0..2 {
        match renderer.handle(Some(Msg::Render)) {
            LoopAction::Render(told) => assert!(told == viewport(20)),
            other => panic!("{other:?}"),
        }
    }
}

#[test]
fn nothing_is_rendered_after_a_shutdown() {
    let mut renderer = started();
    assert!(matches!(renderer.handle(Some(Msg::Viewport(viewport(10)))), LoopAction::Wait));
    assert!(matches!(renderer.handle(Some(Msg::Shutdown)), LoopAction::Stop));
    assert!(matches!(renderer.handle(Some(Msg::Render)), LoopAction::Stop));
    assert!(matches!(renderer.handle(Some(Msg::Viewport(viewport(20)))), LoopAction::Stop));
    assert!(renderer.viewport == viewport(10));
}

#[test]
fn the_loop_stops_where_no_more_messages_can_come() {
    let mut renderer = started();
    assert!(matches!(renderer.handle(None), LoopAction::Stop));
    assert!(matches!(renderer.handle(Some(Msg::Render)), LoopAction::Stop));
}
