use enginekit::llm::generation::Generation;

#[test]
fn generation_stops_at_last_vocab_id() {
    let prompt = [1usize, 2, 3];
    let mut g = Generation::new(&prompt, 5, 16, 10);
    assert!(g.wants_more());
    assert!(!g.prepare());
    assert_eq!(g.context(), &[1, 2, 3]);
    g.accept(7);
    assert!(g.wants_more());
    g.accept(9);
    assert!(!g.wants_more());
    assert_eq!(g.finish(), vec![7]);
}

#[test]
fn generation_respects_step_budget() {
    let prompt = [4usize];
    let mut g = Generation::new(&prompt, 2, 16, 100);
    g.accept(5);
    g.accept(6);
    assert!(!g.wants_more());
    assert_eq!(g.context(), &[4, 5, 6]);
    assert_eq!(g.finish(), vec![5, 6]);
}

#[test]
fn generation_zero_steps_returns_nothing() {
    let prompt = [1usize, 2];
    let g = Generation::new(&prompt, 0, 8, 3);
    assert!(!g.wants_more());
    assert_eq!(g.finish(), Vec::<usize>::new());
}

#[test]
fn generation_cuts_to_window() {
    let prompt = [1usize, 2];
    let mut g = Generation::new(&prompt, 4, 3, 50);
    g.accept(3);
    assert!(!g.prepare());
    g.accept(4);
    assert_eq!(g.context(), &[1, 2, 3, 4]);
    assert!(g.prepare());
    assert_eq!(g.context(), &[2, 3, 4]);
    assert_eq!(g.finish(), vec![4]);
}
