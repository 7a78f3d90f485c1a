//! Scenes and the scene stack.
//!
//! Scenes themselves (what they draw and do each frame) belong to the
//! caller, who registers each under a name with an id of its own.  The
//! manager keeps the stack of active scene ids and decides the lifecycle
//! calls (enter, exit) that scene changes cause, in order; the caller takes
//! them and makes the calls.
use vstd::prelude::*;
use crate::strmap::StrMap;

verus! {

/// A visual novel scene: a name and the script it plays, if any.
pub struct VisualNovelScene {
    name: String,
    current_script: Option<String>,
}

impl VisualNovelScene {
    /// The scene's name.
    pub closed spec fn name_view(&self) -> Seq<char> {
        self.name@
    }

    /// The path of the scene's script, if one was loaded.
    pub closed spec fn script_view(&self) -> Option<Seq<char>> {
        match self.current_script {
            Some(s) => Some(s@),
            None => None,
        }
    }

    /// A scene without a script.
    pub fn new(name: &str) -> (r: Self)
        ensures
            r.name_view() == name@,
            r.script_view() is None,
    {
        VisualNovelScene { name: name.to_string(), current_script: None }
    }

    /// Sets the script the scene plays.
    pub fn load_script(&mut self, script_path: &str)
        ensures
            final(self).name_view() == old(self).name_view(),
            final(self).script_view() == Some(script_path@),
    {
        self.current_script = Some(script_path.to_string());
    }

    /// Advancing a line changes nothing in the scene itself.
    pub fn next_line(&self) {
    }

    /// Choosing changes nothing in the scene itself.
    pub fn make_choice(&self, choice_index: usize) {
    }

    /// The scene's name.
    pub fn name(&self) -> (r: &str)
        ensures
            r@ == self.name_view(),
    {
        self.name.as_str()
    }

    /// The path of the scene's script, if one was loaded.
    pub fn current_script(&self) -> (r: Option<&str>)
        ensures
            match r {
                Some(s) => self.script_view() == Some(s@),
                None => self.script_view() is None,
            },
    {
        match &self.current_script {
            Some(s) => Some(s.as_str()),
            None => None,
        }
    }
}

/// A lifecycle call due to a scene.
#[derive(Debug, Clone, Copy, PartialEq, Eq, Structural)]
pub enum SceneEvent {
    /// The scene becomes active.
    Enter(usize),
    /// The scene becomes inactive.
    Exit(usize),
}

/// Stack and due lifecycle calls.
pub type SceneState = (Seq<usize>, Seq<SceneEvent>);

/// Changing to scene `id`: the current scene (if any) is left and the
/// stack replaced by `id` alone, which is entered.  Scenes below the
/// current one are dropped without a call.
pub open spec fn changed_to(st: SceneState, id: usize) -> SceneState {
    let (stack, ev) = st;
    let ev1 = if stack.len() > 0 {
        ev.push(SceneEvent::Exit(stack.last()))
    } else {
        ev
    };
    (seq![id], ev1.push(SceneEvent::Enter(id)))
}

/// Pushing scene `id`: the current scene (if any) is left but stays on the
/// stack; `id` is entered on top.
pub open spec fn pushed(st: SceneState, id: usize) -> SceneState {
    let (stack, ev) = st;
    let ev1 = if stack.len() > 0 {
        ev.push(SceneEvent::Exit(stack.last()))
    } else {
        ev
    };
    (stack.push(id), ev1.push(SceneEvent::Enter(id)))
}

/// Popping: the top scene (if any) is left and removed, and the scene
/// below it (if any) entered again.
pub open spec fn popped(st: SceneState) -> SceneState {
    let (stack, ev) = st;
    if stack.len() == 0 {
        st
    } else {
        let rest = stack.drop_last();
        let ev1 = ev.push(SceneEvent::Exit(stack.last()));
        (rest, if rest.len() > 0 {
            ev1.push(SceneEvent::Enter(rest.last()))
        } else {
            ev1
        })
    }
}

/// Exit calls for the scenes of a stack, from the top down.
pub open spec fn exits_top_down(stack: Seq<usize>) -> Seq<SceneEvent>
    decreases stack.len(),
{
    if stack.len() == 0 {
        seq![]
    } else {
        seq![SceneEvent::Exit(stack.last())] + exits_top_down(stack.drop_last())
    }
}

/// Named scenes and the stack of active ones.
pub struct SceneManager {
    scenes: StrMap,
    stack: Vec<usize>,
    events: Vec<SceneEvent>,
}

impl SceneManager {
    /// Registered scene ids by name.
    pub closed spec fn scenes_view(&self) -> Map<Seq<char>, usize> {
        self.scenes@
    }

    /// Stack and due lifecycle calls.
    pub closed spec fn state(&self) -> SceneState {
        (self.stack@, self.events@)
    }

    /// Well-formedness of the name table.
    pub closed spec fn wf(&self) -> bool {
        self.scenes.wf()
    }

    /// No scenes, empty stack.
    pub fn new() -> (r: Self)
        ensures
            r.wf(),
            r.scenes_view() == Map::<Seq<char>, usize>::empty(),
            r.state() == (Seq::<usize>::empty(), Seq::<SceneEvent>::empty()),
    {
        let r = SceneManager { scenes: StrMap::new(), stack: Vec::new(), events: Vec::new() };
        assert(r.state() =~= (Seq::<usize>::empty(), Seq::<SceneEvent>::empty()));
        r
    }

    /// Prepares the manager; always succeeds.
    pub fn initialize(&mut self) -> (r: Result<(), String>)
        ensures
            r is Ok,
            final(self).scenes_view() == old(self).scenes_view(),
            final(self).state() == old(self).state(),
            final(self).wf() == old(self).wf(),
    {
        Ok(())
    }

    /// Registers scene `scene` under `name` (replacing a scene of that
    /// name).
    pub fn register_scene(&mut self, name: &str, scene: usize)
        requires
            old(self).wf(),
        ensures
            final(self).wf(),
            final(self).scenes_view() == old(self).scenes_view().insert(name@, scene),
            final(self).state() == old(self).state(),
    {
        self.scenes.insert(name.to_string(), scene);
    }

    /// Changes to the scene named `name` (see `changed_to`); nothing
    /// happens when no scene has that name.
    pub fn change_scene(&mut self, name: &str)
        requires
            old(self).wf(),
        ensures
            final(self).wf(),
            final(self).scenes_view() == old(self).scenes_view(),
            final(self).state() == if old(self).scenes_view().contains_key(name@) {
                changed_to(old(self).state(), old(self).scenes_view()[name@])
            } else {
                old(self).state()
            },
    {
        if let Some(id) = self.scenes.get(name) {
            let ghost st = self.state();
            if self.stack.len() > 0 {
                let top = self.stack[self.stack.len() - 1];
                self.events.push(SceneEvent::Exit(top));
            }
            self.stack = Vec::new();
            self.stack.push(id);
            self.events.push(SceneEvent::Enter(id));
            assert(self.state() =~= changed_to(st, id));
        }
    }

    /// Pushes the scene named `name` (see `pushed`); nothing happens when
    /// no scene has that name.
    pub fn push_scene(&mut self, name: &str)
        requires
            old(self).wf(),
        ensures
            final(self).wf(),
            final(self).scenes_view() == old(self).scenes_view(),
            final(self).state() == if old(self).scenes_view().contains_key(name@) {
                pushed(old(self).state(), old(self).scenes_view()[name@])
            } else {
                old(self).state()
            },
    {
        if let Some(id) = self.scenes.get(name) {
            let ghost st = self.state();
            if self.stack.len() > 0 {
                let top = self.stack[self.stack.len() - 1];
                self.events.push(SceneEvent::Exit(top));
            }
            self.stack.push(id);
            self.events.push(SceneEvent::Enter(id));
            assert(self.state() =~= pushed(st, id));
        }
    }

    /// Pops the current scene (see `popped`).
    pub fn pop_scene(&mut self)
        requires
            old(self).wf(),
        ensures
            final(self).wf(),
            final(self).scenes_view() == old(self).scenes_view(),
            final(self).state() == popped(old(self).state()),
    {
        let ghost st = self.state();
        if self.stack.len() > 0 {
            let top = self.stack.pop().unwrap();
            self.events.push(SceneEvent::Exit(top));
            if self.stack.len() > 0 {
                let prev = self.stack[self.stack.len() - 1];
                self.events.push(SceneEvent::Enter(prev));
            }
            assert(self.state() =~= popped(st));
        }
    }

    /// The current (top) scene: the one updated and rendered each frame.
    pub fn current_scene(&self) -> (r: Option<usize>)
        ensures
            r == if self.state().0.len() > 0 {
                Some(self.state().0.last())
            } else {
                None::<usize>
            },
    {
        if self.stack.len() > 0 {
            Some(self.stack[self.stack.len() - 1])
        } else {
            None
        }
    }

    /// Leaves every scene on the stack, from the top down, and forgets all
    /// scenes.
    pub fn shutdown(&mut self)
        requires
            old(self).wf(),
        ensures
            final(self).wf(),
            final(self).scenes_view() == Map::<Seq<char>, usize>::empty(),
            final(self).state() == (Seq::<usize>::empty(), old(self).state().1 + exits_top_down(
                old(self).state().0,
            )),
    {
        let ghost s0 = self.stack@;
        let ghost e0 = self.events@;
        while self.stack.len() > 0
            invariant
                e0 + exits_top_down(s0) == self.events@ + exits_top_down(self.stack@),
            decreases self.stack@.len(),
        {
            let ghost before = self.stack@;
            let top = self.stack.pop().unwrap();
            self.events.push(SceneEvent::Exit(top));
            proof {
                assert(before.drop_last() =~= self.stack@);
                assert(exits_top_down(before) =~= seq![SceneEvent::Exit(top)] + exits_top_down(self.stack@));
                assert(self.events@ + exits_top_down(self.stack@) =~= (self.events@.drop_last()
                    + seq![SceneEvent::Exit(top)]) + exits_top_down(self.stack@));
            }
        }
        assert(self.events@ + exits_top_down(self.stack@) =~= self.events@);
        self.scenes = StrMap::new();
    }

    /// Takes the due lifecycle calls, in order.
    pub fn take_events(&mut self) -> (r: Vec<SceneEvent>)
        requires
            old(self).wf(),
        ensures
            final(self).wf(),
            r@ == old(self).state().1,
            final(self).state() == (old(self).state().0, Seq::<SceneEvent>::empty()),
            final(self).scenes_view() == old(self).scenes_view(),
    {
        let mut out: Vec<SceneEvent> = Vec::new();
        std::mem::swap(&mut out, &mut self.events);
        assert(self.state() =~= (old(self).state().0, Seq::<SceneEvent>::empty()));
        out
    }
}

/// Pushing a scene and popping it again leaves the stack as it was; the
/// calls due are leaving the current scene, entering the pushed one,
/// leaving it, and entering the previous scene again.
pub proof fn lemma_push_then_pop(st: SceneState, id: usize)
    ensures
        popped(pushed(st, id)).0 == st.0,
        popped(pushed(st, id)).1 == st.1 + if st.0.len() > 0 {
            seq![
                SceneEvent::Exit(st.0.last()),
                SceneEvent::Enter(id),
                SceneEvent::Exit(id),
                SceneEvent::Enter(st.0.last()),
            ]
        } else {
            seq![SceneEvent::Enter(id), SceneEvent::Exit(id)]
        },
{
    let p = pushed(st, id);
    assert(p.0.drop_last() =~= st.0);
    assert(popped(p).1 =~= st.1 + if st.0.len() > 0 {
        seq![
            SceneEvent::Exit(st.0.last()),
            SceneEvent::Enter(id),
            SceneEvent::Exit(id),
            SceneEvent::Enter(st.0.last()),
        ]
    } else {
        seq![SceneEvent::Enter(id), SceneEvent::Exit(id)]
    });
}

/// After changing scene, the stack holds only that scene.
pub proof fn lemma_change_leaves_one(st: SceneState, id: usize)
    ensures
        changed_to(st, id).0 == seq![id],
        changed_to(st, id).1.last() == SceneEvent::Enter(id),
{
}

} // verus!
