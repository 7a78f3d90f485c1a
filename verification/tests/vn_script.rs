use enginekit::vn::command::{Command, CommandType};
use enginekit::vn::config::GameConfig;
use enginekit::vn::rendering::RenderEngine;
use enginekit::vn::scene::{SceneEvent, SceneManager, VisualNovelScene};
use enginekit::vn::script::{parse_line, ScriptEngine};
use enginekit::vn::texture::{asset_path, Texture};

const SCRIPT: &str = "# demo\n@bg classroom.jpg\n@music bgm.ogg\n\nAlice: Good morning!\n*start\nBob: Hi.\n@unknown x\n@end\nAlice: never shown\n";

fn chars(s: &str) -> Vec<char> {
    s.chars().collect()
}

#[test]
fn lines_become_commands() {
    let c = parse_line(&chars("@bg classroom.jpg left")).unwrap();
    assert_eq!(c.command_type, CommandType::Background);
    assert_eq!(c.params, vec!["classroom.jpg", "left"]);
    let d = parse_line(&chars("Alice : Hello: there")).unwrap();
    assert_eq!(d.command_type, CommandType::Dialogue);
    assert_eq!(d.params, vec!["Alice", "Hello: there"]);
    let l = parse_line(&chars("* start")).unwrap();
    assert_eq!(l.command_type, CommandType::Label);
    assert_eq!(l.params, vec!["start"]);
    let u = parse_line(&chars("@whatever")).unwrap();
    assert_eq!(u.command_type, CommandType::Unknown);
    assert!(u.params.is_empty());
    assert!(parse_line(&chars("just text")).is_none());
}

#[test]
fn running_stops_at_dialogue_and_dispatches_handlers() {
    let mut e = ScriptEngine::new();
    e.set_command_handler(CommandType::Background, 7);
    e.set_command_handler(CommandType::Dialogue, 8);
    e.parse_script(SCRIPT);
    assert_eq!(e.command_count(), 8);
    e.start();
    assert!(e.is_running());
    assert!(e.is_waiting_for_input());
    assert_eq!(e.current_command().unwrap().params, vec!["Alice", "Good morning!"]);
    assert_eq!(e.take_dispatched(), vec![(0, 7), (2, 8)]);
    e.next();
    // the label is skipped, Bob speaks
    assert_eq!(e.current_command().unwrap().params, vec!["Bob", "Hi."]);
    assert_eq!(e.take_dispatched(), vec![(4, 8)]);
    e.next();
    // the unknown command is passed, the script ends
    assert!(!e.is_running());
    assert_eq!(e.current_command().unwrap().command_type, CommandType::End);
}

#[test]
fn pause_blocks_advancing() {
    let mut e = ScriptEngine::new();
    e.parse_script(SCRIPT);
    e.start();
    e.pause();
    assert!(e.is_paused());
    e.next();
    assert_eq!(e.current_command().unwrap().params[0], "Alice");
    e.resume();
    e.next();
    assert_eq!(e.current_command().unwrap().params[0], "Bob");
    e.stop();
    assert!(!e.is_running());
}

#[test]
fn jumping_to_labels() {
    let mut e = ScriptEngine::new();
    e.parse_script(SCRIPT);
    assert!(!e.jump_to_label("missing"));
    assert!(e.jump_to_label("start"));
    assert_eq!(e.current_command().unwrap().params, vec!["Bob", "Hi."]);
}

#[test]
fn handlers_can_be_cleared_and_engine_shut_down() {
    let mut e = ScriptEngine::default();
    e.set_command_handler(CommandType::Background, 1);
    e.set_command_handler(CommandType::Background, 2);
    e.clear_handlers(CommandType::Background);
    e.parse_script("@bg a\n@end\n");
    e.start();
    assert!(e.take_dispatched().is_empty());
    assert!(e.initialize().is_ok());
    e.shutdown();
    assert_eq!(e.command_count(), 0);
    assert!(e.current_command().is_none());
}

#[test]
fn command_constructor_keeps_fields() {
    let c = Command::new(CommandType::Wait, vec!["2".to_string()]);
    assert_eq!(c.command_type, CommandType::Wait);
    assert_eq!(c.params, vec!["2"]);
}

#[test]
fn scene_stack_lifecycle() {
    let mut m = SceneManager::new();
    m.register_scene("title", 0);
    m.register_scene("main", 1);
    m.change_scene("title");
    m.push_scene("main");
    assert_eq!(m.current_scene(), Some(1));
    m.pop_scene();
    assert_eq!(m.current_scene(), Some(0));
    m.change_scene("nowhere");
    assert_eq!(m.current_scene(), Some(0));
    assert_eq!(
        m.take_events(),
        vec![
            SceneEvent::Enter(0),
            SceneEvent::Exit(0),
            SceneEvent::Enter(1),
            SceneEvent::Exit(1),
            SceneEvent::Enter(0),
        ]
    );
    m.push_scene("main");
    m.take_events();
    m.shutdown();
    assert_eq!(m.take_events(), vec![SceneEvent::Exit(1), SceneEvent::Exit(0)]);
    assert_eq!(m.current_scene(), None);
}

#[test]
fn scenes_remember_their_script() {
    let mut s = VisualNovelScene::new("main");
    assert_eq!(s.name(), "main");
    assert!(s.current_script().is_none());
    s.load_script("intro.txt");
    assert_eq!(s.current_script(), Some("intro.txt"));
}

#[test]
fn renderer_and_config() {
    let mut r = RenderEngine::new();
    assert_eq!((r.width(), r.height(), r.title()), (1280, 720, "Visual Novel"));
    assert!(!r.is_initialized());
    r.initialize(800, 600, "Demo", true).unwrap();
    assert_eq!((r.width(), r.height(), r.title()), (800, 600, "Demo"));
    assert!(r.is_initialized());
    r.shutdown();
    assert!(!r.is_initialized());
    let c = GameConfig::default();
    assert_eq!(c.title, "Visual Novel");
    assert_eq!((c.width, c.height, c.fullscreen, c.vsync, c.target_fps), (1280, 720, false, true, 60));
}

#[test]
fn textures_and_asset_paths() {
    let t = Texture::from_parts("a.png".to_string(), 1, 2, vec![0; 8]);
    assert_eq!((t.width(), t.height(), t.data().len(), t.path()), (1, 2, 8, "a.png"));
    assert_eq!(asset_path("assets/", "images/bg.png"), "assets/images/bg.png");
}

#[test]
fn jump_command_returns_to_label() {
    let mut e = ScriptEngine::new();
    e.set_command_handler(CommandType::Jump, 3);
    e.parse_script("*start\nA: hi\n@jump start\n@end");
    e.start();
    assert!(e.is_waiting_for_input());
    assert_eq!(e.take_dispatched(), Vec::<(usize, u64)>::new());
    e.next();
    assert!(e.is_running());
    assert!(e.is_waiting_for_input());
    let c = e.current_command().unwrap();
    assert_eq!(c.command_type, CommandType::Dialogue);
    assert_eq!(c.params, vec!["A", "hi"]);
    assert_eq!(e.take_dispatched(), vec![(2, 3)]);
}

#[test]
fn jump_to_unknown_label_moves_on() {
    let mut e = ScriptEngine::new();
    e.parse_script("@jump nowhere\nB: there\n@end");
    e.start();
    assert!(e.is_waiting_for_input());
    assert_eq!(e.current_command().unwrap().params, vec!["B", "there"]);
}

#[test]
fn endless_jump_loop_is_stopped() {
    let mut e = ScriptEngine::new();
    e.parse_script("*top\n@jump top");
    e.start();
    assert!(!e.is_running());
    assert!(!e.is_waiting_for_input());
    assert_eq!(e.current_command().unwrap().command_type, CommandType::Jump);
}
