//! The probe's command line: what a typed line asks for, and how an event reads.

use vstd::prelude::*;

use crate::engine::EngineEvent;
use crate::text::{
    chars_of, decimal, decimal_of, decimal_stands_for_its_number, decimal_value, find_in, is_blank,
    lemma_find, same, split_once, splitting_once_cuts_at_the_first, text_of, trim, trimmed,
    trimming_strips_white_space,
};

verus! {

/// What a typed line asks for.
#[derive(Debug)]
pub enum Command {
    /// Play this context.
    Load(String),
    Play,
    Pause,
    Toggle,
    Next,
    Prev,
    Quit,
    /// Nothing was typed.
    Nothing,
    /// What was typed is no command.
    Unknown(String),
}

/// What a [`Command`] says.
pub enum Request {
    Load(Seq<char>),
    Play,
    Pause,
    Toggle,
    Next,
    Prev,
    Quit,
    Nothing,
    Unknown(Seq<char>),
}

impl View for Command {
    type V = Request;

    open spec fn view(&self) -> Request {
        match self {
            Command::Load(uri) => Request::Load(uri@),
            Command::Play => Request::Play,
            Command::Pause => Request::Pause,
            Command::Toggle => Request::Toggle,
            Command::Next => Request::Next,
            Command::Prev => Request::Prev,
            Command::Quit => Request::Quit,
            Command::Nothing => Request::Nothing,
            Command::Unknown(text) => Request::Unknown(text@),
        }
    }
}

/// What a word asks for.
pub open spec fn word_request(word: Seq<char>) -> Request {
    if word == "play"@ {
        Request::Play
    } else if word == "pause"@ {
        Request::Pause
    } else if word == "p"@ || word == "toggle"@ {
        Request::Toggle
    } else if word == "next"@ || word == "n"@ {
        Request::Next
    } else if word == "prev"@ || word == "b"@ {
        Request::Prev
    } else if word == "quit"@ || word == "q"@ {
        Request::Quit
    } else if word == ""@ {
        Request::Nothing
    } else {
        Request::Unknown(word)
    }
}

/// What a typed line asks for.
pub open spec fn request(line: Seq<char>) -> Request {
    let typed = trimmed(line);
    match split_once(typed, ' ') {
        Some((word, rest)) => if word == "load"@ {
            Request::Load(trimmed(rest))
        } else {
            word_request(typed)
        },
        None => word_request(typed),
    }
}

/// What a word asks for.
fn word_command(word: &str) -> (command: Command)
    ensures
        command@ == word_request(word@),
{
    if same(word, "play") {
        Command::Play
    } else if same(word, "pause") {
        Command::Pause
    } else if same(word, "p") || same(word, "toggle") {
        Command::Toggle
    } else if same(word, "next") || same(word, "n") {
        Command::Next
    } else if same(word, "prev") || same(word, "b") {
        Command::Prev
    } else if same(word, "quit") || same(word, "q") {
        Command::Quit
    } else if same(word, "") {
        Command::Nothing
    } else {
        Command::Unknown(word.to_owned())
    }
}

/// What a typed line asks for.
pub fn parse_command(line: &str) -> (command: Command)
    ensures
        command@ == request(line@),
{
    let typed = trim(line);
    let chars = chars_of(typed.as_str());
    let n = chars.len();
    let space = find_in(&chars, 0, n, ' ');
    assert(chars@.subrange(0, n as int) =~= typed@);
    if space < n {
        let word = text_of(&chars, 0, space);
        let rest = text_of(&chars, space + 1, n);
        assert(word@ =~= typed@.take(space as int));
        assert(rest@ =~= typed@.skip(space + 1));
        if same(word.as_str(), "load") {
            return Command::Load(trim(rest.as_str()));
        }
    }
    word_command(typed.as_str())
}

/// How an event with a position reads.
pub open spec fn positioned(label: Seq<char>, uri: Seq<char>, position_ms: u32) -> Seq<char> {
    label + uri + " @ "@ + decimal(position_ms as nat) + "ms"@
}

/// How an event reads.
pub open spec fn reading(event: EngineEvent) -> Seq<char> {
    match event {
        EngineEvent::TrackChanged { uri } => "♫ track changed → "@ + uri@,
        EngineEvent::Playing { uri, position_ms } => positioned("▶ playing   "@, uri@, position_ms),
        EngineEvent::Paused { uri, position_ms } => positioned("⏸ paused    "@, uri@, position_ms),
        EngineEvent::EndOfTrack { uri } => "⏹ end       "@ + uri@,
        EngineEvent::Stopped => "⏹ stopped"@,
        EngineEvent::PositionCorrection { uri, position_ms } => positioned(
            "↔ position  "@,
            uri@,
            position_ms,
        ),
    }
}

/// How an event with a position reads.
fn with_position(label: &str, uri: &String, position_ms: u32) -> (line: String)
    ensures
        line@ == positioned(label@, uri@, position_ms),
{
    let mut line = label.to_owned();
    line.append(uri.as_str());
    line.append(" @ ");
    let position = decimal_of(position_ms as u64);
    line.append(position.as_str());
    line.append("ms");
    line
}

/// How an event reads.
pub fn describe(event: &EngineEvent) -> (line: String)
    ensures
        line@ == reading(*event),
{
    match event {
        EngineEvent::TrackChanged { uri } => {
            let mut line = "♫ track changed → ".to_owned();
            line.append(uri.as_str());
            line
        },
        EngineEvent::Playing { uri, position_ms } => {
            with_position("▶ playing   ", uri, *position_ms)
        },
        EngineEvent::Paused { uri, position_ms } => {
            with_position("⏸ paused    ", uri, *position_ms)
        },
        EngineEvent::EndOfTrack { uri } => {
            let mut line = "⏹ end       ".to_owned();
            line.append(uri.as_str());
            line
        },
        EngineEvent::Stopped => "⏹ stopped".to_owned(),
        EngineEvent::PositionCorrection { uri, position_ms } => {
            with_position("↔ position  ", uri, *position_ms)
        },
    }
}

/// A typed line is taken without the white space around it. Each command has its words, `load`
/// takes what follows it, and what is no command is handed back as it was typed.
pub proof fn typed_lines_are_understood(
    before: Seq<char>,
    typed: Seq<char>,
    after: Seq<char>,
    rest: Seq<char>,
)
    requires
        forall|i: int| 0 <= i < before.len() ==> is_blank(#[trigger] before[i]),
        forall|i: int| 0 <= i < after.len() ==> is_blank(#[trigger] after[i]),
        typed.len() > 0 ==> !is_blank(typed[0]) && !is_blank(typed.last()),
    ensures
        ({
            let asked = request(before + typed + after);
            &&& asked is Play <==> typed == "play"@
            &&& asked is Pause <==> typed == "pause"@
            &&& asked is Toggle <==> typed == "p"@ || typed == "toggle"@
            &&& asked is Next <==> typed == "next"@ || typed == "n"@
            &&& asked is Prev <==> typed == "prev"@ || typed == "b"@
            &&& asked is Quit <==> typed == "quit"@ || typed == "q"@
            &&& asked is Nothing <==> typed.len() == 0
            &&& typed == "load"@ + seq![' '] + rest ==> asked == Request::Load(trimmed(rest))
            &&& asked is Load ==> exists|uri: Seq<char>|
                typed == #[trigger] ("load"@ + seq![' '] + uri)
            &&& asked matches Request::Unknown(text) ==> text == typed
        }),
{
    trimming_strips_white_space(before, typed, after);
    reveal_strlit("load");
    if typed == "load"@ + seq![' '] + rest {
        splitting_once_cuts_at_the_first("load"@, rest, ' ');
    }
    lemma_find(typed, ' ');
    if let Some((word, tail)) = split_once(typed, ' ') {
        assert(typed =~= word + seq![' '] + tail);
        if word == "load"@ {
            assert(typed == "load"@ + seq![' '] + tail);
            lemma_no_word_has_a_space(typed);
        }
    }
    lemma_words_differ(typed);
}

proof fn lemma_words_differ(word: Seq<char>)
    ensures
        word_request(word) is Play <==> word == "play"@,
        word_request(word) is Pause <==> word == "pause"@,
        word_request(word) is Toggle <==> word == "p"@ || word == "toggle"@,
        word_request(word) is Next <==> word == "next"@ || word == "n"@,
        word_request(word) is Prev <==> word == "prev"@ || word == "b"@,
        word_request(word) is Quit <==> word == "quit"@ || word == "q"@,
        word_request(word) is Nothing <==> word.len() == 0,
        !(word_request(word) is Load),
        word_request(word) matches Request::Unknown(text) ==> text == word,
{
    reveal_strlit("play");
    reveal_strlit("pause");
    reveal_strlit("p");
    reveal_strlit("toggle");
    reveal_strlit("next");
    reveal_strlit("n");
    reveal_strlit("prev");
    reveal_strlit("b");
    reveal_strlit("quit");
    reveal_strlit("q");
    reveal_strlit("");
    assert("play"@[1] == 'l' && "next"@[1] == 'e' && "prev"@[1] == 'r' && "quit"@[1] == 'u');
    assert("p"@[0] == 'p' && "n"@[0] == 'n' && "b"@[0] == 'b' && "q"@[0] == 'q');
    if word.len() == 0 {
        assert(word =~= ""@);
    }
}

proof fn lemma_no_word_has_a_space(typed: Seq<char>)
    requires
        typed.len() > 4,
        typed[4] == ' ',
    ensures
        typed != "play"@ && typed != "pause"@ && typed != "p"@ && typed != "toggle"@,
        typed != "next"@ && typed != "n"@ && typed != "prev"@ && typed != "b"@,
        typed != "quit"@ && typed != "q"@,
{
    reveal_strlit("play");
    reveal_strlit("pause");
    reveal_strlit("p");
    reveal_strlit("toggle");
    reveal_strlit("next");
    reveal_strlit("n");
    reveal_strlit("prev");
    reveal_strlit("b");
    reveal_strlit("quit");
    reveal_strlit("q");
}

/// An event reads as what happened and to which track, and where it has a position with that
/// position in decimal.
pub proof fn events_read_with_address_and_position(uri: String, position_ms: u32)
    ensures
        reading(EngineEvent::TrackChanged { uri }) == "♫ track changed → "@ + uri@,
        reading(EngineEvent::EndOfTrack { uri }) == "⏹ end       "@ + uri@,
        reading(EngineEvent::Stopped) == "⏹ stopped"@,
        exists|digits: Seq<char>|
            {
                &&& #[trigger] decimal_value(digits) == position_ms
                &&& digits.len() > 0
                &&& forall|i: int| 0 <= i < digits.len() ==> '0' <= #[trigger] digits[i] <= '9'
                &&& digits[0] == '0' ==> digits.len() == 1
                &&& reading(EngineEvent::Playing { uri, position_ms }) == "▶ playing   "@ + uri@
                    + " @ "@ + digits + "ms"@
                &&& reading(EngineEvent::Paused { uri, position_ms }) == "⏸ paused    "@ + uri@
                    + " @ "@ + digits + "ms"@
                &&& reading(EngineEvent::PositionCorrection { uri, position_ms })
                    == "↔ position  "@ + uri@ + " @ "@ + digits + "ms"@
            },
{
    let digits = decimal(position_ms as nat);
    decimal_stands_for_its_number(position_ms as nat);
    assert(decimal_value(digits) == position_ms);
}

} // verus!
