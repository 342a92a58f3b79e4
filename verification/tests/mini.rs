use meusic::mini::{mini_position, MINI_DEFAULT_HEIGHT, MINI_DEFAULT_WIDTH};

#[test]
fn mini_player_bottom_right() {
    assert_eq!((MINI_DEFAULT_WIDTH, MINI_DEFAULT_HEIGHT), (320, 300));
    assert_eq!(mini_position(0, 0, 1920, 1080, None), (1588, 724));
    assert_eq!(mini_position(0, 0, 1920, 1080, Some((400, 200))), (1508, 824));
    assert_eq!(mini_position(1920, -100, 1280, 1024, None), (2868, 568));
}
