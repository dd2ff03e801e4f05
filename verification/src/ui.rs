//! The dialogue with the player: lines said and lines asked for, and a
//! scripted stand-in that plays back a dialogue fixed in advance.

use vstd::prelude::*;
use vstd::string::StringExecFns;

verus! {

/// One turn of a scripted dialogue.
pub enum Io {
    /// A line that the player types.
    Input(String),
    /// A line that the program is to say.
    Output(String),
}

/// One turn of a dialogue, as plain text.
pub enum Turn {
    Input(Seq<char>),
    Output(Seq<char>),
}

impl View for Io {
    type V = Turn;

    open spec fn view(&self) -> Turn {
        match self {
            Io::Input(line) => Turn::Input(line@),
            Io::Output(line) => Turn::Output(line@),
        }
    }
}

/// A way to talk to the player.
pub trait Ui {
    /// Whether `text` may be said now: always, unless the implementation
    /// sets a condition of its own.
    open spec fn can_say(&self, text: Seq<char>) -> bool {
        true
    }

    /// Whether a line may be asked for now: always, unless the
    /// implementation sets a condition of its own.
    open spec fn can_ask(&self) -> bool {
        true
    }

    /// Says `buf` to the player.
    fn say(&mut self, buf: &String)
        requires
            old(self).can_say(buf@),
    ;

    /// Asks the player for a line and appends it to `buf`.
    fn ask(&mut self, buf: &mut String)
        requires
            old(self).can_ask(),
    ;
}

/// A stand-in for the player that follows a script: it hands out the
/// scripted inputs and accepts the scripted outputs, turn by turn.
pub struct MockUi {
    expectations: Vec<Io>,
    out: String,
}

impl MockUi {
    /// The turns still to come, the next one first.
    pub closed spec fn script(&self) -> Seq<Turn> {
        Seq::new(
            self.expectations@.len(),
            |i: int| self.expectations@[self.expectations@.len() - 1 - i]@,
        )
    }

    /// All that has been said so far.
    pub closed spec fn said(&self) -> Seq<char> {
        self.out@
    }

    /// A stand-in with an empty script.
    pub fn new() -> (ui: MockUi)
        ensures
            ui.script() == Seq::<Turn>::empty(),
            ui.said() == Seq::<char>::empty(),
    {
        MockUi { expectations: Vec::new(), out: String::new() }
    }

    /// Adds a turn to the end of the script.
    pub fn expect(&mut self, expectation: Io) -> (ui: &mut Self)
        ensures
            ui.script() == old(self).script().push(expectation@),
            ui.said() == old(self).said(),
            *final(self) == *final(ui),
    {
        self.expectations.insert(0, expectation);
        self
    }
}

impl Ui for MockUi {
    /// The next turn of the script is this very output.
    open spec fn can_say(&self, text: Seq<char>) -> bool {
        self.script().len() > 0 && self.script()[0] == Turn::Output(text)
    }

    /// The next turn of the script is an input.
    open spec fn can_ask(&self) -> bool {
        self.script().len() > 0 && self.script()[0] is Input
    }

    /// Takes the scripted output off the script and notes it as said.
    fn say(&mut self, buf: &String)
        ensures
            final(self).script() == old(self).script().drop_first(),
            final(self).said() == old(self).said() + buf@,
    {
        let next = self.expectations.pop();
        match next {
            Some(Io::Output(line)) => {
                self.out.append(line.as_str());
            },
            _ => {},
        }
    }

    /// Takes the scripted input off the script and appends it to `buf`.
    fn ask(&mut self, buf: &mut String)
        ensures
            final(self).script() == old(self).script().drop_first(),
            final(self).said() == old(self).said(),
            final(buf)@ == old(buf)@ + old(self).script()[0]->Input_0,
    {
        let next = self.expectations.pop();
        match next {
            Some(Io::Input(line)) => {
                buf.append(line.as_str());
            },
            _ => {},
        }
    }
}

} // verus!
