use tsukimi::frame::{
    FrameCallbacks, ShmFrame, ShmMemoryFormat, SurfaceContentUpdate, SurfaceUpdate, Viewport,
};

#[test]
fn viewports_keep_their_numbers() {
    let viewport = Viewport::new(1280, 720, 1.5f64.to_bits());
    assert_eq!(viewport.width, 1280);
    assert_eq!(viewport.height, 720);
    assert_eq!(f64::from_bits(viewport.scale_bits), 1.5);
}

#[test]
fn the_default_viewport_is_empty() {
    let viewport = Viewport::default();
    assert_eq!((viewport.width, viewport.height), (0, 0));
    assert_eq!(f64::from_bits(viewport.scale_bits), 0.0);
}

#[test]
fn viewports_compare_as_their_doubles_do() {
    let scales = [
        0.0,
        -0.0,
        1.0,
        -1.0,
        1.25,
        5e-324,
        f64::MAX,
        f64::INFINITY,
        f64::NEG_INFINITY,
        f64::NAN,
        -f64::NAN,
    ];
    for a in scales {
        for b in scales {
            let left = Viewport::new(3, 4, a.to_bits());
            let right = Viewport::new(3, 4, b.to_bits());
            assert_eq!(left == right, a == b, "{a} {b}");
        }
    }
    let one = 1.0f64.to_bits();
    assert!(Viewport::new(3, 4, one) != Viewport::new(3, 5, one));
    assert!(Viewport::new(3, 4, one) != Viewport::new(2, 4, one));
}

#[test]
fn an_update_carries_its_frame_and_its_callbacks() {
    let update = SurfaceUpdate {
        content: SurfaceContentUpdate::Shm(ShmFrame {
            width: 1,
            height: 1,
            stride: 4,
            format: ShmMemoryFormat::Argb8888,
            data: vec![1, 2, 3, 4],
        }),
        frame_callbacks: Some(FrameCallbacks),
    };
    match update.content {
        SurfaceContentUpdate::Shm(frame) => {
            assert_eq!(frame.format, ShmMemoryFormat::Argb8888);
            assert_ne!(frame.format, ShmMemoryFormat::Xrgb8888);
            assert_eq!(frame.data, vec![1, 2, 3, 4]);
        }
        _ => panic!("the content was replaced"),
    }
    if let Some(callbacks) = update.frame_callbacks {
        callbacks.done(16);
    }
}
