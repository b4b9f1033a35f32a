//! The game's log book: which log records are kept (only the game's own,
//! and a record marked "once" only the first time), and the history of
//! kept lines that the console shows.
use crate::text::{chars_of, str_eq};
use vstd::prelude::*;
use vstd::string::*;

verus! {

/// The text of a kept line: the level in brackets, a space, the message.
pub open spec fn log_line(level: Seq<char>, text: Seq<char>) -> Seq<char> {
    "["@ + level + "] "@ + text
}

/// Whether a record comes from the game's own code: its module path starts
/// with the crate's name (records with no module path are kept).
pub open spec fn own_module_spec(origin: Option<Seq<char>>) -> bool {
    match origin {
        None => true,
        Some(p) => "maplewood"@.len() <= p.len() && p.subrange(0, "maplewood"@.len() as int) == "maplewood"@,
    }
}

/// Whether a module path starts with the crate's name.
fn starts_with_own_name(p: &str) -> (b: bool)
    ensures
        b == ("maplewood"@.len() <= p@.len() && p@.subrange(0, "maplewood"@.len() as int) == "maplewood"@),
{
    let v = chars_of(p);
    let own = chars_of("maplewood");
    if own.len() > v.len() {
        return false;
    }
    let mut i: usize = 0;
    while i < own.len()
        invariant
            own@ == "maplewood"@,
            v@ == p@,
            own@.len() <= v@.len(),
            i <= own@.len(),
            forall|j: int| 0 <= j < i ==> v@[j] == own@[j],
        decreases own@.len() - i,
    {
        if v[i] != own[i] {
            assert(v@.subrange(0, own@.len() as int)[i as int] != own@[i as int]);
            return false;
        }
        i = i + 1;
    }
    assert(v@.subrange(0, own@.len() as int) =~= own@);
    true
}

/// Whether a record comes from the game's own code.
pub fn from_own_module(origin: Option<&str>) -> (b: bool)
    ensures
        b == own_module_spec(match origin { Some(p) => Some(p@), None => None }),
{
    match origin {
        None => true,
        Some(p) => starts_with_own_name(p),
    }
}

/// The kept log lines, and the messages already logged with "once".
pub struct LogBook {
    pub history: Vec<String>,
    pub once_only_logs: Vec<String>,
}

/// The texts of a list of strings.
pub open spec fn texts_of(v: Seq<String>) -> Seq<Seq<char>> {
    v.map_values(|s: String| s@)
}

impl LogBook {
    /// Nothing logged.
    pub fn new() -> (b: LogBook)
        ensures
            b.history@.len() == 0,
            b.once_only_logs@.len() == 0,
    {
        LogBook { history: Vec::new(), once_only_logs: Vec::new() }
    }

    /// Records a log message at a level; a message marked `once` that was
    /// logged with `once` before is dropped. Returns whether it was kept (and
    /// so is to be printed).
    pub fn record(&mut self, level: &str, text: &str, once: bool) -> (kept: bool)
        ensures
            kept == !(once && texts_of(old(self).once_only_logs@).contains(text@)),
            kept ==> texts_of(final(self).history@) == texts_of(old(self).history@).push(log_line(level@, text@)),
            !kept ==> final(self).history@ == old(self).history@,
            once && kept ==> texts_of(final(self).once_only_logs@) == texts_of(old(self).once_only_logs@).push(text@),
            !(once && kept) ==> final(self).once_only_logs@ == old(self).once_only_logs@,
    {
        if once {
            let mut i: usize = 0;
            while i < self.once_only_logs.len()
                invariant
                    once,
                    self.once_only_logs@ == old(self).once_only_logs@,
                    self.history@ == old(self).history@,
                    i <= self.once_only_logs@.len(),
                    forall|j: int| 0 <= j < i ==> (#[trigger] self.once_only_logs@[j])@ != text@,
                decreases self.once_only_logs@.len() - i,
            {
                if str_eq(self.once_only_logs[i].as_str(), text) {
                    assert(texts_of(self.once_only_logs@)[i as int] == text@);
                    return false;
                }
                i = i + 1;
            }
            assert(!texts_of(self.once_only_logs@).contains(text@)) by {
                if texts_of(self.once_only_logs@).contains(text@) {
                    let k = choose|k: int| 0 <= k < texts_of(self.once_only_logs@).len() && texts_of(self.once_only_logs@)[k] == text@;
                    assert(self.once_only_logs@[k]@ == text@);
                }
            }
            self.once_only_logs.push(String::from_str(text));
            assert(texts_of(self.once_only_logs@) =~= texts_of(old(self).once_only_logs@).push(text@));
        }
        let mut line = String::from_str("[");
        line.append(level);
        line.append("] ");
        line.append(text);
        self.history.push(line);
        assert(texts_of(self.history@) =~= texts_of(old(self).history@).push(log_line(level@, text@)));
        true
    }
}

} // verus!
