//! The coding assistant whose sessions are watched.
use crate::text;
use vstd::prelude::*;

verus! {

/// The name of the assistant: the one that its files go by, and the one that is shown.
#[derive(Debug)]
pub struct Assistant {
    pub id: String,
    pub title: String,
}

pub struct AssistantView {
    pub id: Seq<char>,
    pub title: Seq<char>,
}

impl View for Assistant {
    type V = AssistantView;

    open spec fn view(&self) -> AssistantView {
        AssistantView { id: self.id@, title: self.title@ }
    }
}

/// A name with its first letter in upper case.
pub open spec fn capitalised(name: Seq<char>) -> Seq<char> {
    if name.len() > 0 {
        seq![text::ascii_upper(name[0])] + name.skip(1)
    } else {
        name
    }
}

/// The assistant that a program watches. The program is named after it, with `-swarm` behind the
/// name, and what is shown is the name with `Code` behind it.
pub open spec fn watched_by(program: Seq<char>) -> AssistantView {
    let id = if "-swarm"@.is_suffix_of(program) {
        program.take(program.len() - "-swarm"@.len())
    } else {
        program
    };
    AssistantView { id, title: capitalised(id) + " Code"@ }
}

/// A name with its first letter in upper case.
fn capitalise(name: &str) -> (r: String)
    ensures
        r@ == capitalised(name@),
{
    let chars: Vec<char> = text::to_chars(name);
    if chars.len() == 0 {
        return String::new();
    }
    let mut r: String = String::new();
    r.push(text::upper(chars[0]));
    r.append(&text::skip_text(name, 1));
    assert(r@ =~= capitalised(name@));
    r
}

impl Assistant {
    /// The assistant that a program of the given name watches.
    pub fn watched_by(program: &str) -> (r: Assistant)
        ensures
            r@ == watched_by(program@),
    {
        let id: String = if text::ends_with(program, "-swarm") {
            let n: usize = text::to_chars(program).len();
            let suffix: usize = text::to_chars("-swarm").len();
            text::clip_text(program, n - suffix)
        } else {
            program.to_string()
        };
        proof {
            reveal_strlit("-swarm");
            assert(id@ =~= watched_by(program@).id);
        }
        let mut title: String = capitalise(&id);
        title.append(" Code");
        Assistant { id, title }
    }

    /// The name of the directory in the user's home that holds the assistant's files.
    pub fn dir_name(&self) -> (r: String)
        ensures
            r@ == "."@ + self@.id,
    {
        let mut s: String = ".".to_string();
        s.append(&self.id);
        s
    }
}

} // verus!
