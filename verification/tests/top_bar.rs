use nuon::top_bar::{HostAction, LooperMsg, Msg, ProgressBarMsg, TopBar};

#[test]
fn new_bar_is_idle() {
    let t = TopBar::new();
    assert!(!t.is_looper_active());
    assert_eq!(t.loop_start_timestamp(), 0);
    assert_eq!(t.loop_end_timestamp(), 0);
    assert!(!t.is_expanded);
    assert!(!t.settings_active);
}

#[test]
fn enabling_the_looper_for_the_first_time_opens_a_five_second_window() {
    let mut t = TopBar::new();
    let a = t.on_msg(&Msg::Looper(LooperMsg::Toggle), 2000, false, false);
    assert_eq!(a, HostAction::Nothing);
    assert!(t.is_looper_active());
    assert_eq!(t.loop_start_timestamp(), 2000);
    assert_eq!(t.loop_end_timestamp(), 7000);
}

#[test]
fn toggling_the_looper_again_keeps_the_window() {
    let mut t = TopBar::new();
    t.on_msg(&Msg::Looper(LooperMsg::Toggle), 2000, false, false);
    t.on_msg(&Msg::Looper(LooperMsg::Toggle), 9000, false, false);
    assert!(!t.is_looper_active());
    assert_eq!(t.loop_start_timestamp(), 2000);
    assert_eq!(t.loop_end_timestamp(), 7000);
    t.on_msg(&Msg::Looper(LooperMsg::Toggle), 12000, false, false);
    assert!(t.is_looper_active());
    assert_eq!(t.loop_start_timestamp(), 2000);
}

#[test]
fn loop_bounds_can_be_moved() {
    let mut t = TopBar::new();
    t.on_msg(&Msg::Looper(LooperMsg::MoveStart(1234)), 0, false, false);
    t.on_msg(&Msg::Looper(LooperMsg::MoveEnd(8888)), 0, false, false);
    assert_eq!(t.loop_start_timestamp(), 1234);
    assert_eq!(t.loop_end_timestamp(), 8888);
    assert!(!t.is_looper_active());
}

#[test]
fn settings_toggle_flips_the_panel() {
    let mut t = TopBar::new();
    assert_eq!(t.on_msg(&Msg::SettingsToggle, 0, false, false), HostAction::Nothing);
    assert!(t.settings_active);
    t.on_msg(&Msg::SettingsToggle, 0, false, false);
    assert!(!t.settings_active);
}

#[test]
fn transport_messages_map_to_host_actions() {
    let mut t = TopBar::new();
    assert_eq!(t.on_msg(&Msg::PauseResume, 0, false, false), HostAction::PauseResume);
    assert_eq!(t.on_msg(&Msg::SpeedUp, 0, false, false), HostAction::SpeedUp);
    assert_eq!(t.on_msg(&Msg::SpeedDown, 0, false, false), HostAction::SpeedDown);
    assert_eq!(t.on_msg(&Msg::GoBack, 0, false, false), HostAction::GoBack);
}

#[test]
fn progress_bar_press_seeks_unless_already_rewinding() {
    let mut t = TopBar::new();
    let pressed = Msg::ProggresBar(ProgressBarMsg::Pressed);
    let released = Msg::ProggresBar(ProgressBarMsg::Released);
    assert_eq!(t.on_msg(&pressed, 0, false, false), HostAction::StartSeek);
    assert_eq!(t.on_msg(&pressed, 0, true, false), HostAction::Nothing);
    assert_eq!(t.on_msg(&released, 0, true, true), HostAction::StopRewind);
    assert_eq!(t.on_msg(&released, 0, true, false), HostAction::Nothing);
}

#[test]
fn update_expands_near_the_top_edge() {
    let mut t = TopBar::new();
    let y = t.update(1000, 100, false, false);
    assert!(t.is_expanded);
    // the expansion animation has only just been triggered
    assert_eq!(y, -70);
    // far from the edge, with nothing grabbed and settings closed
    let mut t2 = TopBar::new();
    t2.update(1000, 300, false, false);
    assert!(!t2.is_expanded);
}

#[test]
fn update_settles_fully_expanded() {
    let mut t = TopBar::new();
    t.update(1000, 100, false, false);
    // 30 ms delay + 1000 ms duration have passed: fully expanded
    let y = t.update(2100, 100, false, false);
    assert_eq!(y, 0);
}

#[test]
fn grabbed_handles_keep_the_bar_expanded() {
    let mut t = TopBar::new();
    t.update(1000, 500, true, false);
    assert!(t.is_expanded);
    let mut t2 = TopBar::new();
    t2.update(1000, 500, false, true);
    assert!(t2.is_expanded);
}

#[test]
fn hover_threshold_is_one_point_seven_bar_heights() {
    // 1.7 * 75 = 127.5: 127 is inside, 128 is outside
    let mut t = TopBar::new();
    t.update(0, 127, false, false);
    assert!(t.is_expanded);
    let mut t2 = TopBar::new();
    t2.update(0, 128, false, false);
    assert!(!t2.is_expanded);
}

#[test]
fn color_channels_are_stored_verbatim() {
    let c = nuon::Color::new_u8(37, 35, 42, 255);
    assert_eq!((c.r, c.g, c.b, c.a), (37, 35, 42, 255));
    assert_eq!(nuon::Color::white(), nuon::Color::new_u8(255, 255, 255, 255));
}
