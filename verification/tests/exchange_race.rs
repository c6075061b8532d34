use linsn::exchange::FrameExchange;
use linsn::linsn::Pixel;
use linsn::panel::FRAME_PIXELS;

fn is_uniform(buf: &[Pixel]) -> bool {
    buf.len() == FRAME_PIXELS && buf.iter().all(|p| *p == buf[0])
}

#[test]
fn fresh_exchange_is_black_and_clean() {
    let ex = FrameExchange::new();
    assert!(!ex.dirty);
    assert!(ex.active_frame().iter().all(|p| *p == Pixel::new(0, 0, 0)));
    assert!(ex.inactive.iter().all(|p| *p == Pixel::new(0, 0, 0)));
}

#[test]
fn poll_without_publish_keeps_the_frame() {
    let mut ex = FrameExchange::new();
    ex.fill_inactive(Pixel::new(1, 2, 3));
    // flag never raised: the consumer keeps retransmitting the old frame
    assert!(!ex.poll_swap());
    assert!(ex.active_frame().iter().all(|p| *p == Pixel::new(0, 0, 0)));
}

#[test]
fn publish_then_poll_hands_over_the_frame() {
    let mut ex = FrameExchange::new();
    ex.fill_inactive(Pixel::new(7, 8, 9));
    ex.set_dirty();
    assert!(ex.poll_swap());
    assert!(!ex.dirty);
    assert!(ex.active_frame().iter().all(|p| *p == Pixel::new(7, 8, 9)));
    // a second poll without a new publish does nothing
    assert!(!ex.poll_swap());
    assert!(ex.active_frame().iter().all(|p| *p == Pixel::new(7, 8, 9)));
}

#[test]
fn producer_overwrites_unconsumed_frame() {
    let mut ex = FrameExchange::new();
    ex.fill_inactive(Pixel::new(1, 1, 1));
    ex.set_dirty();
    // consumer is slow; the producer never blocks and the old frame is lost
    ex.fill_inactive(Pixel::new(2, 2, 2));
    ex.set_dirty();
    assert!(ex.poll_swap());
    assert!(ex.active_frame().iter().all(|p| *p == Pixel::new(2, 2, 2)));
}

#[test]
fn load_publishes_an_arbitrary_frame() {
    let mut ex = FrameExchange::new();
    let mut frame = vec![Pixel::new(0, 0, 0); FRAME_PIXELS];
    frame[12345] = Pixel::new(4, 5, 6);
    ex.load_inactive(&frame);
    ex.set_dirty();
    assert!(ex.poll_swap());
    assert_eq!(ex.active_frame()[12345], Pixel::new(4, 5, 6));
    assert_eq!(ex.active_frame()[0], Pixel::new(0, 0, 0));
    assert_eq!(ex.active_frame().len(), FRAME_PIXELS);
}

#[test]
fn thousand_red_writes_never_tear() {
    let red = Pixel::new(0xFF, 0, 0);
    let black = Pixel::new(0, 0, 0);
    let mut ex = FrameExchange::new();
    for round in 0..1000 {
        ex.fill_inactive(red);
        ex.set_dirty();
        // the consumer polls only every third round, so most frames are
        // overwritten unconsumed
        if round % 3 == 0 {
            ex.poll_swap();
        }
        let active = ex.active_frame();
        assert!(is_uniform(active), "torn frame in round {round}");
        let colour = active[0];
        assert!(colour == red || colour == black, "foreign colour in round {round}");
    }
}
