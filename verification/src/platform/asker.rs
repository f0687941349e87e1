//! How questions reach the operator.

use vstd::prelude::*;
use vstd::string::StringExecFns;
use vstd::string::StrSliceExecFns;

use crate::text::{chars_of, str_eq, trim_line_ends, trimmed_len};

use std::collections::VecDeque;

verus! {

broadcast use vstd::string::group_string_axioms;

/// How to ask questions to the operator.
#[derive(Debug, Clone, Copy, PartialEq, Eq)]
pub enum AskVia {
    /// Straight to this process' terminal.
    Tty,
    /// Read from the process' stdin.
    Stdin,
    /// Through systemd, which routes the question to whichever agent can put
    /// it in front of the operator.
    SystemdAskPassword,
}

impl Default for AskVia {
    fn default() -> (chosen: AskVia)
        ensures
            chosen is Tty,
    {
        AskVia::Tty
    }
}

/// The way to ask that an operator names: `tty`, `stdin` or
/// `systemd-ask-password`; anything else is refused with a message listing
/// those.
pub open spec fn ask_via_named(name: Seq<char>) -> Result<AskVia, Seq<char>> {
    if name == "tty"@ {
        Ok(AskVia::Tty)
    } else if name == "stdin"@ {
        Ok(AskVia::Stdin)
    } else if name == "systemd-ask-password"@ {
        Ok(AskVia::SystemdAskPassword)
    } else {
        Err(
            "unknown way to ask '"@ + name
                + "', expected 'tty', 'stdin' or 'systemd-ask-password'"@,
        )
    }
}

impl AskVia {
    /// Whether answers given this way may carry typos worth a confirmation:
    /// all but those piped through stdin.
    pub fn is_subject_to_typos(self) -> (subject: bool)
        ensures
            subject == !(self == AskVia::Stdin),
    {
        match self {
            AskVia::Stdin => false,
            _ => true,
        }
    }
}

/// The answer a line read off a pipe gives: the line without the line ends
/// that end it, or `None` when nothing is left, which means the pipe has run
/// out of answers.
pub fn piped_answer(line: &str) -> (answer: Option<String>)
    ensures
        match answer {
            Some(a) => trim_line_ends(line@).len() > 0 && a@ == trim_line_ends(line@),
            None => trim_line_ends(line@).len() == 0,
        },
{
    let chars = chars_of(line);
    let len = trimmed_len(&chars);
    if len == 0 {
        None
    } else {
        Some(line.substring_char(0, len).to_owned())
    }
}

impl std::str::FromStr for AskVia {
    type Err = String;

    fn from_str(name: &str) -> (chosen: Result<AskVia, String>)
        ensures
            match chosen {
                Ok(v) => ask_via_named(name@) == Ok::<AskVia, Seq<char>>(v),
                Err(why) => ask_via_named(name@) == Err::<AskVia, Seq<char>>(why@),
            },
    {
        if str_eq(name, "tty") {
            Ok(AskVia::Tty)
        } else if str_eq(name, "stdin") {
            Ok(AskVia::Stdin)
        } else if str_eq(name, "systemd-ask-password") {
            Ok(AskVia::SystemdAskPassword)
        } else {
            let mut why = "unknown way to ask '".to_owned();
            why.append(name);
            why.append("', expected 'tty', 'stdin' or 'systemd-ask-password'");
            Err(why)
        }
    }
}

/// The answers a rehearsal read off a pipe, kept for the run that follows it:
/// the run is given them in the order they were read, one per question, and
/// none once they are used up.
pub struct Rehearsal {
    pending: VecDeque<String>,
}

impl View for Rehearsal {
    type V = Seq<Seq<char>>;

    /// The answers not yet given, first read first.
    closed spec fn view(&self) -> Seq<Seq<char>> {
        self.pending@.map_values(|a: String| a@)
    }
}

impl Rehearsal {
    /// A rehearsal that has read nothing yet.
    pub fn new() -> (rehearsal: Rehearsal)
        ensures
            rehearsal@ == Seq::<Seq<char>>::empty(),
    {
        let rehearsal = Rehearsal { pending: VecDeque::new() };
        assert(rehearsal@ =~= Seq::<Seq<char>>::empty());
        rehearsal
    }

    /// Keeps an answer the rehearsal read, behind those read before it.
    pub fn keep(&mut self, answer: String)
        ensures
            final(self)@ == old(self)@.push(answer@),
    {
        let ghost kept = answer@;
        self.pending.push_back(answer);
        assert(self@ =~= old(self)@.push(kept));
    }

    /// The answer to give the next question: the earliest kept answer not yet
    /// given, or `None` when the rehearsal saw no more questions than were
    /// already answered.
    pub fn next_answer(&mut self) -> (answer: Option<String>)
        ensures
            match answer {
                Some(a) => {
                    &&& old(self)@.len() > 0
                    &&& a@ == old(self)@[0]
                    &&& final(self)@ == old(self)@.drop_first()
                },
                None => old(self)@.len() == 0 && final(self)@ == old(self)@,
            },
    {
        let answer = self.pending.pop_front();
        assert(self@ =~= match answer {
            Some(_) => old(self)@.drop_first(),
            None => old(self)@,
        });
        answer
    }
}

/// Kept answers are given first kept, first given: keeping an answer behind
/// those pending changes neither which is given next, if any is pending, nor
/// the order of the rest; with none pending, it is the one given next.
pub proof fn lemma_rehearsal_keeps_order(pending: Seq<Seq<char>>, answer: Seq<char>)
    ensures
        pending.push(answer)[0] == if pending.len() > 0 {
            pending[0]
        } else {
            answer
        },
        pending.push(answer).drop_first() == if pending.len() > 0 {
            pending.drop_first().push(answer)
        } else {
            Seq::<Seq<char>>::empty()
        },
{
    if pending.len() > 0 {
        assert(pending.push(answer).drop_first() =~= pending.drop_first().push(answer));
    } else {
        assert(pending.push(answer).drop_first() =~= Seq::<Seq<char>>::empty());
    }
}

/// What guarding an answer against typos makes of it and of its
/// confirmation: the answer, when the two are the same text; nothing when
/// they differ.
pub fn confirmed(answer: String, confirmation: &str) -> (kept: Option<String>)
    ensures
        match kept {
            Some(a) => answer@ == confirmation@ && a@ == answer@,
            None => answer@ != confirmation@,
        },
{
    if str_eq(answer.as_str(), confirmation) {
        Some(answer)
    } else {
        None
    }
}

} // verus!
