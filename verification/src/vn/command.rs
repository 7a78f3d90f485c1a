//! Commands of visual novel scripts.
use vstd::prelude::*;
use crate::text::{views, str_eq};

verus! {

/// Kinds of script commands.
#[derive(Debug, Clone, Copy, PartialEq, Eq, Structural)]
pub enum CommandType {
    /// An `@` command whose name is not known.
    Unknown,
    Dialogue,
    Choice,
    Background,
    Character,
    Music,
    Sound,
    Transition,
    Wait,
    Label,
    Jump,
    End,
}

/// A command: its kind and its parameters.
#[derive(Debug)]
pub struct Command {
    pub command_type: CommandType,
    pub params: Vec<String>,
}

/// A command by its kind and the characters of its parameters.
pub open spec fn command_view(c: Command) -> (CommandType, Seq<Seq<char>>) {
    (c.command_type, views(c.params@))
}

impl Command {
    /// A command of the given kind and parameters.
    pub fn new(command_type: CommandType, params: Vec<String>) -> (r: Self)
        ensures
            r.command_type == command_type,
            r.params@ == params@,
    {
        Command { command_type, params }
    }
}

/// The kind an `@` command name selects.
pub open spec fn command_type_of(name: Seq<char>) -> CommandType {
    if name == "bg"@ || name == "background"@ {
        CommandType::Background
    } else if name == "char"@ || name == "character"@ {
        CommandType::Character
    } else if name == "music"@ || name == "bgm"@ {
        CommandType::Music
    } else if name == "sound"@ || name == "sfx"@ {
        CommandType::Sound
    } else if name == "wait"@ {
        CommandType::Wait
    } else if name == "jump"@ {
        CommandType::Jump
    } else if name == "end"@ {
        CommandType::End
    } else {
        CommandType::Unknown
    }
}

/// The kind an `@` command name selects.
pub fn command_type_for(name: &str) -> (r: CommandType)
    ensures
        r == command_type_of(name@),
{
    if str_eq(name, "bg") || str_eq(name, "background") {
        CommandType::Background
    } else if str_eq(name, "char") || str_eq(name, "character") {
        CommandType::Character
    } else if str_eq(name, "music") || str_eq(name, "bgm") {
        CommandType::Music
    } else if str_eq(name, "sound") || str_eq(name, "sfx") {
        CommandType::Sound
    } else if str_eq(name, "wait") {
        CommandType::Wait
    } else if str_eq(name, "jump") {
        CommandType::Jump
    } else if str_eq(name, "end") {
        CommandType::End
    } else {
        CommandType::Unknown
    }
}

/// Position of a kind in the declaration order, 0 to 11.
pub open spec fn type_index(t: CommandType) -> int {
    match t {
        CommandType::Unknown => 0,
        CommandType::Dialogue => 1,
        CommandType::Choice => 2,
        CommandType::Background => 3,
        CommandType::Character => 4,
        CommandType::Music => 5,
        CommandType::Sound => 6,
        CommandType::Transition => 7,
        CommandType::Wait => 8,
        CommandType::Label => 9,
        CommandType::Jump => 10,
        CommandType::End => 11,
    }
}

/// Executable `type_index`.
pub fn type_slot(t: CommandType) -> (r: usize)
    ensures
        r == type_index(t),
        r < 12,
{
    match t {
        CommandType::Unknown => 0,
        CommandType::Dialogue => 1,
        CommandType::Choice => 2,
        CommandType::Background => 3,
        CommandType::Character => 4,
        CommandType::Music => 5,
        CommandType::Sound => 6,
        CommandType::Transition => 7,
        CommandType::Wait => 8,
        CommandType::Label => 9,
        CommandType::Jump => 10,
        CommandType::End => 11,
    }
}

/// Each `@` command name selects its own kind: `bg` and `background` a
/// background, `char` and `character` a character, `music` and `bgm`
/// music, `sound` and `sfx` a sound, `wait`, `jump` and `end` their kinds;
/// every other name is unknown, and no name gives dialogue, a choice, a
/// transition or a label.
pub proof fn lemma_command_names(name: Seq<char>)
    ensures
        (command_type_of(name) == CommandType::Background) <==> (name == "bg"@ || name == "background"@),
        (command_type_of(name) == CommandType::Character) <==> (name == "char"@ || name == "character"@),
        (command_type_of(name) == CommandType::Music) <==> (name == "music"@ || name == "bgm"@),
        (command_type_of(name) == CommandType::Sound) <==> (name == "sound"@ || name == "sfx"@),
        (command_type_of(name) == CommandType::Wait) <==> name == "wait"@,
        (command_type_of(name) == CommandType::Jump) <==> name == "jump"@,
        (command_type_of(name) == CommandType::End) <==> name == "end"@,
        command_type_of(name) != CommandType::Dialogue,
        command_type_of(name) != CommandType::Choice,
        command_type_of(name) != CommandType::Transition,
        command_type_of(name) != CommandType::Label,
{
    reveal_strlit("bg");
    reveal_strlit("background");
    reveal_strlit("char");
    reveal_strlit("character");
    reveal_strlit("music");
    reveal_strlit("bgm");
    reveal_strlit("sound");
    reveal_strlit("sfx");
    reveal_strlit("wait");
    reveal_strlit("jump");
    reveal_strlit("end");
    assert("bg"@ != "background"@) by { assert("bg"@.len() != "background"@.len()); }
    assert("bg"@ != "char"@) by { assert("bg"@.len() != "char"@.len()); }
    assert("bg"@ != "character"@) by { assert("bg"@.len() != "character"@.len()); }
    assert("bg"@ != "music"@) by { assert("bg"@.len() != "music"@.len()); }
    assert("bg"@ != "bgm"@) by { assert("bg"@.len() != "bgm"@.len()); }
    assert("bg"@ != "sound"@) by { assert("bg"@.len() != "sound"@.len()); }
    assert("bg"@ != "sfx"@) by { assert("bg"@.len() != "sfx"@.len()); }
    assert("bg"@ != "wait"@) by { assert("bg"@.len() != "wait"@.len()); }
    assert("bg"@ != "jump"@) by { assert("bg"@.len() != "jump"@.len()); }
    assert("bg"@ != "end"@) by { assert("bg"@.len() != "end"@.len()); }
    assert("background"@ != "char"@) by { assert("background"@.len() != "char"@.len()); }
    assert("background"@ != "character"@) by { assert("background"@.len() != "character"@.len()); }
    assert("background"@ != "music"@) by { assert("background"@.len() != "music"@.len()); }
    assert("background"@ != "bgm"@) by { assert("background"@.len() != "bgm"@.len()); }
    assert("background"@ != "sound"@) by { assert("background"@.len() != "sound"@.len()); }
    assert("background"@ != "sfx"@) by { assert("background"@.len() != "sfx"@.len()); }
    assert("background"@ != "wait"@) by { assert("background"@.len() != "wait"@.len()); }
    assert("background"@ != "jump"@) by { assert("background"@.len() != "jump"@.len()); }
    assert("background"@ != "end"@) by { assert("background"@.len() != "end"@.len()); }
    assert("char"@ != "character"@) by { assert("char"@.len() != "character"@.len()); }
    assert("char"@ != "music"@) by { assert("char"@.len() != "music"@.len()); }
    assert("char"@ != "bgm"@) by { assert("char"@.len() != "bgm"@.len()); }
    assert("char"@ != "sound"@) by { assert("char"@.len() != "sound"@.len()); }
    assert("char"@ != "sfx"@) by { assert("char"@.len() != "sfx"@.len()); }
    assert("char"@ != "wait"@) by { assert("char"@[0] != "wait"@[0]); }
    assert("char"@ != "jump"@) by { assert("char"@[0] != "jump"@[0]); }
    assert("char"@ != "end"@) by { assert("char"@.len() != "end"@.len()); }
    assert("character"@ != "music"@) by { assert("character"@.len() != "music"@.len()); }
    assert("character"@ != "bgm"@) by { assert("character"@.len() != "bgm"@.len()); }
    assert("character"@ != "sound"@) by { assert("character"@.len() != "sound"@.len()); }
    assert("character"@ != "sfx"@) by { assert("character"@.len() != "sfx"@.len()); }
    assert("character"@ != "wait"@) by { assert("character"@.len() != "wait"@.len()); }
    assert("character"@ != "jump"@) by { assert("character"@.len() != "jump"@.len()); }
    assert("character"@ != "end"@) by { assert("character"@.len() != "end"@.len()); }
    assert("music"@ != "bgm"@) by { assert("music"@.len() != "bgm"@.len()); }
    assert("music"@ != "sound"@) by { assert("music"@[0] != "sound"@[0]); }
    assert("music"@ != "sfx"@) by { assert("music"@.len() != "sfx"@.len()); }
    assert("music"@ != "wait"@) by { assert("music"@.len() != "wait"@.len()); }
    assert("music"@ != "jump"@) by { assert("music"@.len() != "jump"@.len()); }
    assert("music"@ != "end"@) by { assert("music"@.len() != "end"@.len()); }
    assert("bgm"@ != "sound"@) by { assert("bgm"@.len() != "sound"@.len()); }
    assert("bgm"@ != "sfx"@) by { assert("bgm"@[0] != "sfx"@[0]); }
    assert("bgm"@ != "wait"@) by { assert("bgm"@.len() != "wait"@.len()); }
    assert("bgm"@ != "jump"@) by { assert("bgm"@.len() != "jump"@.len()); }
    assert("bgm"@ != "end"@) by { assert("bgm"@[0] != "end"@[0]); }
    assert("sound"@ != "sfx"@) by { assert("sound"@.len() != "sfx"@.len()); }
    assert("sound"@ != "wait"@) by { assert("sound"@.len() != "wait"@.len()); }
    assert("sound"@ != "jump"@) by { assert("sound"@.len() != "jump"@.len()); }
    assert("sound"@ != "end"@) by { assert("sound"@.len() != "end"@.len()); }
    assert("sfx"@ != "wait"@) by { assert("sfx"@.len() != "wait"@.len()); }
    assert("sfx"@ != "jump"@) by { assert("sfx"@.len() != "jump"@.len()); }
    assert("sfx"@ != "end"@) by { assert("sfx"@[0] != "end"@[0]); }
    assert("wait"@ != "jump"@) by { assert("wait"@[0] != "jump"@[0]); }
    assert("wait"@ != "end"@) by { assert("wait"@.len() != "end"@.len()); }
    assert("jump"@ != "end"@) by { assert("jump"@.len() != "end"@.len()); }
}

} // verus!
