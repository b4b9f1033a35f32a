//! Script metadata, script lookup in source files, and the decisions of the
//! script runner: which scripts start, which wait, and which are aborted.
use crate::story::{condition_spec, evaluate_story_var_condition, outcome_view, StoryVars};
use crate::text::{chars_of, find_chars, find_spec, occurs_at, string_from_chars, substring, trim_end_index, trimmed_len};
use vstd::prelude::*;
use vstd::string::*;

verus! {

/// An error a script callback reports back to the script.
#[derive(Clone, Debug, PartialEq, Eq)]
pub enum ScriptError {
    InvalidStoryVar(String),
    InvalidEntity(String),
    InvalidMap(String),
}

impl ScriptError {
    /// The message shown for this error.
    pub fn message(&self) -> (s: String)
        ensures
            s@ == match self {
                ScriptError::InvalidStoryVar(v) => "no story var "@ + v@,
                ScriptError::InvalidEntity(l) => "no entity "@ + l@ + " with necessary components"@,
                ScriptError::InvalidMap(l) => "no map "@ + l@,
            },
    {
        match self {
            ScriptError::InvalidStoryVar(v) => {
                let mut s = String::from_str("no story var ");
                s.append(v.as_str());
                s
            },
            ScriptError::InvalidEntity(l) => {
                let mut s = String::from_str("no entity ");
                s.append(l.as_str());
                s.append(" with necessary components");
                s
            },
            ScriptError::InvalidMap(l) => {
                let mut s = String::from_str("no map ");
                s.append(l.as_str());
                s
            },
        }
    }
}

/// What makes a script start.
#[derive(Clone, Copy, Debug, PartialEq, Eq, Structural)]
pub enum ScriptTrigger {
    Interaction,
    /// The player overlaps the entity after moving.
    SoftCollision,
    /// The player ran into the entity while moving.
    HardCollision,
    Auto,
    /// Started only by other code.
    NoTrigger,
}

/// A story variable that must hold a value.
#[derive(Clone, Debug)]
pub struct ScriptCondition {
    pub story_var: String,
    pub value: i32,
}

/// What a running script waits for before it goes on.
#[derive(Clone, Debug)]
pub enum WaitCondition {
    /// Until the clock (in milliseconds) has passed this time.
    Time(u64),
    /// Until the message window is closed.
    Message,
    /// Until the story variable holds the value.
    StoryVar(String, i32),
}

/// A script with how and when it starts and stops.
#[derive(Clone, Debug)]
pub struct ScriptClass {
    pub source: String,
    pub trigger: ScriptTrigger,
    pub start_condition: Option<ScriptCondition>,
    pub abort_condition: Option<ScriptCondition>,
    /// The source file and label, for messages.
    pub name: Option<String>,
}

/// The scripts an entity carries.
#[derive(Clone, Debug)]
pub struct Scripts(pub Vec<ScriptClass>);

// ------------------------------------------------------------------
// Metadata
// ------------------------------------------------------------------

/// The metadata of a script as plain values.
pub struct MetaView {
    pub name: Option<Seq<char>>,
    pub exclusive: bool,
    pub start_condition: Option<Seq<char>>,
}

/// What a script's leading annotation lines say of it.
pub struct ScriptMetadata {
    pub name: Option<String>,
    pub exclusive: bool,
    pub start_condition: Option<String>,
}

/// An optional string as plain characters.
pub open spec fn opt_view(o: Option<String>) -> Option<Seq<char>> {
    match o {
        Some(s) => Some(s@),
        None => None,
    }
}

impl View for ScriptMetadata {
    type V = MetaView;

    open spec fn view(&self) -> MetaView {
        MetaView { name: opt_view(self.name), exclusive: self.exclusive, start_condition: opt_view(self.start_condition) }
    }
}

/// The index of the first `'\n'` at or after `i`, or the length.
pub open spec fn line_end(s: Seq<char>, i: int) -> int
    decreases s.len() - i,
{
    if i >= s.len() {
        s.len() as int
    } else if s[i] == '\n' {
        i
    } else {
        line_end(s, i + 1)
    }
}

/// Where a line ends: at or after its start, within the text, and on a
/// newline unless the text ends first.
pub proof fn lemma_line_end(s: Seq<char>, i: int)
    requires
        0 <= i,
    ensures
        i <= line_end(s, i) || i >= s.len(),
        line_end(s, i) <= s.len(),
        line_end(s, i) < s.len() ==> s[line_end(s, i)] == '\n',
    decreases s.len() - i,
{
    if i < s.len() && s[i] != '\n' {
        lemma_line_end(s, i + 1);
    }
}

/// A line without the `'\r'` of a `"\r\n"` ending.
pub open spec fn without_cr(l: Seq<char>) -> Seq<char> {
    if l.len() > 0 && l.last() == '\r' {
        l.drop_last()
    } else {
        l
    }
}

/// The lines of `s` from index `i` on, as `str::lines` yields them: split at
/// `"\n"` or `"\r\n"`, the last line's ending optional.
pub open spec fn lines_from(s: Seq<char>, i: int) -> Seq<Seq<char>>
    decreases s.len() - i,
{
    if i < 0 || i >= s.len() {
        Seq::empty()
    } else {
        let e = line_end(s, i);
        proof {
            lemma_line_end(s, i);
        }
        if e >= s.len() {
            seq![s.subrange(i, s.len() as int)]
        } else {
            seq![without_cr(s.subrange(i, e))] + lines_from(s, e + 1)
        }
    }
}

/// A line split at its first space, as `splitn(2, ' ')` splits it: the part
/// before, and the rest if there is a space.
pub open spec fn split_first_space(body: Seq<char>) -> (Seq<char>, Option<Seq<char>>) {
    if exists|k: int| 0 <= k < body.len() && body[k] == ' ' {
        let k = choose|k: int| 0 <= k < body.len() && body[k] == ' ' && forall|j: int| 0 <= j < k ==> body[j] != ' ';
        (body.subrange(0, k), Some(body.subrange(k + 1, body.len() as int)))
    } else {
        (body, None)
    }
}

/// Whether `s` begins with `p`.
pub open spec fn starts_with(s: Seq<char>, p: Seq<char>) -> bool {
    p.len() <= s.len() && s.subrange(0, p.len() as int) == p
}

/// The metadata after an annotation line (which begins with `---`):
/// `@script NAME`, `@exclusive` and `@start_condition EXPR`; other lines
/// change nothing.
pub open spec fn apply_annotation(m: MetaView, line: Seq<char>) -> MetaView {
    let (name, arg) = split_first_space(line.subrange(3, line.len() as int));
    if name == "@script"@ && arg is Some {
        MetaView { name: arg, ..m }
    } else if name == "@exclusive"@ {
        MetaView { exclusive: true, ..m }
    } else if name == "@start_condition"@ && arg is Some {
        MetaView { start_condition: arg, ..m }
    } else {
        m
    }
}

/// The metadata after the leading annotation lines of `lines`, in order.
pub open spec fn annotations_over(m: MetaView, lines: Seq<Seq<char>>) -> MetaView
    decreases lines.len(),
{
    if lines.len() == 0 || !starts_with(lines[0], "---"@) {
        m
    } else {
        annotations_over(apply_annotation(m, lines[0]), lines.drop_first())
    }
}

/// The metadata of a script source.
pub open spec fn metadata_spec(source: Seq<char>) -> MetaView {
    annotations_over(MetaView { name: None, exclusive: false, start_condition: None }, lines_from(source, 0))
}

/// Whether `v[from..to]` holds the characters of `lit`.
fn range_is(v: &Vec<char>, from: usize, to: usize, lit: &str) -> (b: bool)
    requires
        from <= to <= v@.len(),
    ensures
        b == (v@.subrange(from as int, to as int) == lit@),
{
    let l = chars_of(lit);
    if to - from != l.len() {
        return false;
    }
    let mut k: usize = 0;
    while k < l.len()
        invariant
            to - from == l@.len(),
            to <= v@.len(),
            l@ == lit@,
            k <= l@.len(),
            forall|j: int| 0 <= j < k ==> v@[from + j] == l@[j],
        decreases l@.len() - k,
    {
        if v[from + k] != l[k] {
            assert(v@.subrange(from as int, to as int)[k as int] != lit@[k as int]);
            return false;
        }
        k = k + 1;
    }
    assert(v@.subrange(from as int, to as int) =~= lit@);
    true
}

/// The first index in `v[from..to]` holding `c`, or `to`.
fn first_in(v: &Vec<char>, c: char, from: usize, to: usize) -> (k: usize)
    requires
        from <= to <= v@.len(),
    ensures
        from <= k <= to,
        k < to ==> v@[k as int] == c,
        forall|j: int| from <= j < k ==> v@[j] != c,
{
    let mut k: usize = from;
    while k < to && v[k] != c
        invariant
            from <= k <= to,
            to <= v@.len(),
            forall|j: int| from <= j < k ==> v@[j] != c,
        decreases to - k,
    {
        k = k + 1;
    }
    k
}

/// The line of `s` that starts at `pos`: the index of its `'\n'` (or the
/// length), and the end of its text (without the `'\r'` of a `"\r\n"`).
fn line_at(s: &Vec<char>, pos: usize) -> (r: (usize, usize))
    requires
        pos < s@.len(),
    ensures
        r.0 == line_end(s@, pos as int),
        pos <= r.1 <= r.0 <= s@.len(),
        lines_from(s@, pos as int).len() >= 1,
        lines_from(s@, pos as int)[0] == s@.subrange(pos as int, r.1 as int),
        r.0 >= s@.len() ==> lines_from(s@, pos as int).len() == 1,
        r.0 < s@.len() ==> lines_from(s@, pos as int).drop_first() == lines_from(s@, r.0 + 1),
{
    let ghost sq = s@;
    let e = first_in(s, '\n', pos, s.len());
    proof {
        lemma_line_end(sq, pos as int);
        lemma_line_end_is(sq, pos as int, e as int);
    }
    let le = if e < s.len() && e > pos && s[e - 1] == '\r' { e - 1 } else { e };
    proof {
        let line = if e >= sq.len() { sq.subrange(pos as int, sq.len() as int) } else { without_cr(sq.subrange(pos as int, e as int)) };
        assert(line =~= sq.subrange(pos as int, le as int));
        if e < sq.len() {
            assert(lines_from(sq, pos as int).drop_first() =~= lines_from(sq, e + 1));
        }
    }
    (e, le)
}

/// Applies the annotation line `s[pos..le]` (which begins with `---`).
fn apply_annotation_line(meta: &mut ScriptMetadata, source: &str, s: &Vec<char>, pos: usize, le: usize)
    requires
        s@ == source@,
        pos + 3 <= le <= s@.len(),
        starts_with(s@.subrange(pos as int, le as int), "---"@),
    ensures
        final(meta)@ == apply_annotation(old(meta)@, s@.subrange(pos as int, le as int)),
{
    let ghost sq = s@;
    let ghost line = sq.subrange(pos as int, le as int);
    let b = pos + 3;
    let sp = first_in(s, ' ', b, le);
    let ghost body = line.subrange(3, line.len() as int);
    proof {
        assert(body =~= sq.subrange(b as int, le as int));
        if sp < le {
            let k = sp - b;
            assert(body[k] == ' ');
            let c = choose|k: int| 0 <= k < body.len() && body[k] == ' ' && forall|j: int| 0 <= j < k ==> body[j] != ' ';
            assert(c == k) by {
                if c < k {
                    assert(body[c] == sq[b + c]);
                } else if c > k {
                    assert(body[k] != ' ');
                }
            }
            assert(split_first_space(body).0 =~= sq.subrange(b as int, sp as int));
            assert(split_first_space(body).1 == Some(sq.subrange(sp + 1, le as int)));
        } else {
            assert forall|k: int| 0 <= k < body.len() implies body[k] != ' ' by {
                assert(body[k] == sq[b + k]);
            }
            assert(split_first_space(body).0 =~= sq.subrange(b as int, le as int));
        }
    }
    let has_arg = sp < le;
    if range_is(s, b, sp, "@script") && has_arg {
        meta.name = Some(substring(source, sp + 1, le));
    } else if range_is(s, b, sp, "@exclusive") {
        meta.exclusive = true;
    } else if range_is(s, b, sp, "@start_condition") && has_arg {
        meta.start_condition = Some(substring(source, sp + 1, le));
    }
}

/// Reads a script's leading annotation lines (those that begin with `---`):
/// `---@script NAME` names it, `---@exclusive` makes it exclusive and
/// `---@start_condition EXPR` gives its start condition; a later line
/// overrides an earlier one.
pub fn extract_metadata(source: &str) -> (m: ScriptMetadata)
    ensures
        m@ == metadata_spec(source@),
{
    let s = chars_of(source);
    let ghost sq = s@;
    let mut meta = ScriptMetadata { name: None, exclusive: false, start_condition: None };
    let mut pos: usize = 0;
    loop
        invariant
            sq == s@,
            s@ == source@,
            pos <= sq.len(),
            annotations_over(meta@, lines_from(sq, pos as int)) == metadata_spec(source@),
        ensures
            meta@ == metadata_spec(source@),
        decreases sq.len() - pos,
    {
        if pos >= s.len() {
            assert(lines_from(sq, pos as int) =~= Seq::<Seq<char>>::empty());
            break;
        }
        let (e, le) = line_at(&s, pos);
        let ghost line = sq.subrange(pos as int, le as int);
        let dashes = le - pos >= 3 && range_is(&s, pos, pos + 3, "---");
        proof {
            reveal_strlit("---");
            if le - pos >= 3 {
                assert(line.subrange(0, 3) =~= sq.subrange(pos as int, pos + 3));
            }
            assert(dashes == starts_with(line, "---"@));
        }
        if !dashes {
            break;
        }
        apply_annotation_line(&mut meta, source, &s, pos, le);
        if e >= s.len() {
            proof {
                assert(lines_from(sq, pos as int).drop_first() =~= Seq::<Seq<char>>::empty());
                assert(lines_from(sq, s.len() as int) =~= Seq::<Seq<char>>::empty());
            }
            pos = s.len();
        } else {
            pos = e + 1;
        }
    }
    meta
}

proof fn lemma_line_end_is(s: Seq<char>, i: int, e: int)
    requires
        0 <= i <= e <= s.len(),
        e < s.len() ==> s[e] == '\n',
        forall|j: int| i <= j < e ==> s[j] != '\n',
    ensures
        line_end(s, i) == e,
    decreases e - i,
{
    if i < e {
        lemma_line_end_is(s, i + 1, e);
    }
}


// ------------------------------------------------------------------
// Finding scripts in source text
// ------------------------------------------------------------------

/// `v[from..to]` as a new vector.
fn sub_vec(v: &Vec<char>, from: usize, to: usize) -> (r: Vec<char>)
    requires
        from <= to <= v@.len(),
    ensures
        r@ == v@.subrange(from as int, to as int),
{
    let mut r: Vec<char> = Vec::new();
    let mut i: usize = from;
    while i < to
        invariant
            from <= i <= to,
            to <= v@.len(),
            r@ == v@.subrange(from as int, i as int),
        decreases to - i,
    {
        r.push(v[i]);
        i = i + 1;
        assert(r@ =~= v@.subrange(from as int, i as int));
    }
    r
}

/// The characters of two strings, one after the other.
fn joined(a: &str, b: &str) -> (r: Vec<char>)
    ensures
        r@ == a@ + b@,
{
    let mut r = chars_of(a);
    let y = chars_of(b);
    let ghost r0 = r@;
    let mut i: usize = 0;
    while i < y.len()
        invariant
            r0 == a@,
            y@ == b@,
            i <= y@.len(),
            r@ == r0 + y@.take(i as int),
        decreases y@.len() - i,
    {
        r.push(y[i]);
        i = i + 1;
        assert(r@ =~= r0 + y@.take(i as int));
    }
    assert(y@.take(y@.len() as int) =~= y@);
    r
}

/// The part of `source` after the first `"--# LABEL"` and before the next
/// `"--#"`.
pub open spec fn sub_script_spec(source: Seq<char>, label: Seq<char>) -> Option<Seq<char>> {
    let p = "--# "@ + label;
    match find_spec(source, p, 0) {
        None => None,
        Some(i) => {
            let after = source.subrange(i + p.len(), source.len() as int);
            match find_spec(after, "--#"@, 0) {
                None => None,
                Some(j) => Some(after.subrange(0, j)),
            }
        },
    }
}

/// The sub-script of `full_source` labelled `label`: the text after the
/// line marker `--# LABEL` up to the next `--#` marker.
pub fn get_sub_script(full_source: &str, label: &str) -> (r: String)
    requires
        sub_script_spec(full_source@, label@) is Some,
    ensures
        r@ == sub_script_spec(full_source@, label@)->0,
{
    let s = chars_of(full_source);
    let p = joined("--# ", label);
    let i = find_chars(&s, &p, 0).unwrap();
    assert(i + p@.len() <= s.len());
    let after = sub_vec(&s, i + p.len(), s.len());
    let q = chars_of("--#");
    let j = find_chars(&after, &q, 0).unwrap();
    let text = sub_vec(&after, 0, j);
    string_from_chars(&text)
}

/// Where the script named `name` begins in a scripts file: at its
/// `---@script NAME` line (a `"\r\n"` ending is looked for first).
pub open spec fn script_start(contents: Seq<char>, name: Seq<char>) -> Option<int> {
    match find_spec(contents, "---@script "@ + name + "\r\n"@, 0) {
        Some(i) => Some(i),
        None => find_spec(contents, "---@script "@ + name + "\n"@, 0),
    }
}

/// Where a script that begins at `start` ends: one character before the
/// next `---@script` marker, or at the end of the text.
pub open spec fn script_end(contents: Seq<char>, start: int) -> int {
    match find_spec(contents, "---@script"@, start + 1) {
        Some(p) => p - 1,
        None => contents.len() as int,
    }
}

/// The script named `name` in a scripts file, without trailing white space.
pub open spec fn script_in_file_spec(contents: Seq<char>, name: Seq<char>) -> Option<Seq<char>> {
    match script_start(contents, name) {
        None => None,
        Some(st) => {
            let e = script_end(contents, st);
            Some(contents.subrange(st, st + trimmed_len(contents.subrange(st, e))))
        },
    }
}

/// Cutting the script out of the file (which it does at a byte offset one
/// before the next marker) lands on a character boundary: the character
/// before the next marker, if there is one, is a one-byte character.
pub open spec fn script_cut_ok(contents: Seq<char>, name: Seq<char>) -> bool {
    match script_start(contents, name) {
        None => true,
        Some(st) => match find_spec(contents, "---@script"@, st + 1) {
            Some(p) => (contents[p - 1] as u32) < 0x80,
            None => true,
        },
    }
}

/// Whether the script named `script_name` can be cut out of a scripts file:
/// the condition (`script_cut_ok`) that `script_from_file_contents` asks.
pub fn script_cut_check(contents: &str, script_name: &str) -> (b: bool)
    ensures
        b == script_cut_ok(contents@, script_name@),
{
    let s = chars_of(contents);
    let head = joined("---@script ", script_name);
    let ghost head_s = "---@script "@ + script_name@;
    let mut crlf = head.clone();
    crlf.push('\r');
    crlf.push('\n');
    let mut lf = head.clone();
    lf.push('\n');
    proof {
        reveal_strlit("\r\n");
        reveal_strlit("\n");
        assert(crlf@ =~= head_s + "\r\n"@);
        assert(lf@ =~= head_s + "\n"@);
    }
    let start = match find_chars(&s, &crlf, 0) {
        Some(i) => i,
        None => match find_chars(&s, &lf, 0) {
            Some(i) => i,
            None => {
                return true;
            },
        },
    };
    assert(start < s.len()) by {
        reveal_strlit("---@script ");
        assert(head_s.len() > 0);
    }
    let marker = chars_of("---@script");
    match find_chars(&s, &marker, start + 1) {
        Some(p) => (s[p - 1] as u32) < 0x80,
        None => true,
    }
}

/// The script named `script_name` in the contents of a scripts file: from
/// its `---@script NAME` line to the next such line, without trailing white
/// space; `None` if the file has no such script.
pub fn script_from_file_contents(contents: &str, script_name: &str) -> (r: Option<String>)
    requires
        script_cut_ok(contents@, script_name@),
    ensures
        opt_view(r) == script_in_file_spec(contents@, script_name@),
{
    let s = chars_of(contents);
    let head = joined("---@script ", script_name);
    let ghost head_s = "---@script "@ + script_name@;
    let mut crlf = head.clone();
    crlf.push('\r');
    crlf.push('\n');
    let mut lf = head.clone();
    lf.push('\n');
    proof {
        reveal_strlit("\r\n");
        reveal_strlit("\n");
        assert(crlf@ =~= head_s + "\r\n"@);
        assert(lf@ =~= head_s + "\n"@);
    }
    let start = match find_chars(&s, &crlf, 0) {
        Some(i) => i,
        None => match find_chars(&s, &lf, 0) {
            Some(i) => i,
            None => {
                return None;
            },
        },
    };
    assert(start < s@.len()) by {
        reveal_strlit("---@script ");
        assert(head_s.len() > 0);
    }
    assert(start < s.len());
    let marker = chars_of("---@script");
    let end = match find_chars(&s, &marker, start + 1) {
        Some(p) => p - 1,
        None => s.len(),
    };
    let e = trim_end_index(&s, start, end);
    Some(substring(contents, start, e))
}


// ------------------------------------------------------------------
// Choosing and stepping scripts
// ------------------------------------------------------------------

/// Whether a story-variable condition holds.
pub open spec fn condition_holds(c: ScriptCondition, vars: Map<Seq<char>, i32>) -> bool {
    vars[c.story_var@] == c.value
}

/// Whether a script has the trigger and its start condition (if any) holds.
pub open spec fn script_selected(s: ScriptClass, trigger: ScriptTrigger, vars: Map<Seq<char>, i32>) -> bool {
    &&& s.trigger == trigger
    &&& match s.start_condition {
        None => true,
        Some(c) => condition_holds(c, vars),
    }
}

/// Every script with the trigger names, in its start condition, a story
/// variable that exists.
pub open spec fn conditions_known(scripts: Seq<ScriptClass>, trigger: ScriptTrigger, vars: Map<Seq<char>, i32>) -> bool {
    forall|i: int| 0 <= i < scripts.len() && (#[trigger] scripts[i]).trigger == trigger ==> match scripts[i].start_condition {
        None => true,
        Some(c) => vars.dom().contains(c.story_var@),
    }
}

/// The scripts with the given trigger whose start condition holds, in order.
pub fn filter_scripts_by_trigger_and_condition<'a>(
    scripts: &'a Vec<ScriptClass>,
    filter_trigger: ScriptTrigger,
    story_vars: &StoryVars,
) -> (r: Vec<&'a ScriptClass>)
    requires
        story_vars.wf(),
        conditions_known(scripts@, filter_trigger, story_vars@),
    ensures
        r@.map_values(|x: &ScriptClass| *x) == scripts@.filter(|s: ScriptClass| script_selected(s, filter_trigger, story_vars@)),
{
    let ghost sel = |s: ScriptClass| script_selected(s, filter_trigger, story_vars@);
    let mut r: Vec<&'a ScriptClass> = Vec::new();
    let mut i: usize = 0;
    while i < scripts.len()
        invariant
            story_vars.wf(),
            conditions_known(scripts@, filter_trigger, story_vars@),
            sel == (|s: ScriptClass| script_selected(s, filter_trigger, story_vars@)),
            i <= scripts@.len(),
            r@.map_values(|x: &ScriptClass| *x) == scripts@.take(i as int).filter(sel),
        decreases scripts@.len() - i,
    {
        let script = &scripts[i];
        let keep = if script.trigger == filter_trigger {
            match &script.start_condition {
                None => true,
                Some(c) => {
                    assert(story_vars@.dom().contains(c.story_var@));
                    match story_vars.get(c.story_var.as_str()) {
                        Some(v) => v == c.value,
                        None => false,
                    }
                },
            }
        } else {
            false
        };
        assert(keep == sel(scripts@[i as int]));
        let ghost before = r@;
        if keep {
            r.push(script);
        }
        proof {
            reveal(Seq::filter);
            let t = scripts@.take(i + 1);
            assert(t.drop_last() =~= scripts@.take(i as int));
            assert(t.last() == scripts@[i as int]);
            assert(t.filter(sel) == (if sel(t.last()) { t.drop_last().filter(sel).push(t.last()) } else { t.drop_last().filter(sel) }));
            if keep {
                assert(r@.map_values(|x: &ScriptClass| *x) =~= before.map_values(|x: &ScriptClass| *x).push(scripts@[i as int]));
            } else {
                assert(r@ == before);
            }
        }
        i = i + 1;
    }
    assert(scripts@.take(scripts@.len() as int) =~= scripts@);
    r
}

/// What a script does on a frame.
#[derive(Clone, Copy, Debug, PartialEq, Eq, Structural)]
pub enum ScriptStep {
    /// Its abort condition holds: it ends.
    Abort,
    /// It is still waiting.
    Wait,
    /// It runs until it yields.
    Run,
}

/// Whether a wait condition still holds at time `now` (milliseconds).
pub open spec fn still_waiting(w: Option<WaitCondition>, now: u64, message_open: bool, vars: Map<Seq<char>, i32>) -> bool {
    match w {
        Some(WaitCondition::Time(until)) => until > now,
        Some(WaitCondition::Message) => message_open,
        Some(WaitCondition::StoryVar(k, v)) => vars[k@] != v,
        None => false,
    }
}

/// The story variables that a script's step reads exist: that of its abort
/// condition, and, unless the script aborts, that of its wait condition.
pub open spec fn step_vars_known(abort: Option<ScriptCondition>, wait: Option<WaitCondition>, vars: Map<Seq<char>, i32>) -> bool {
    &&& (abort matches Some(c) ==> vars.dom().contains(c.story_var@))
    &&& (!(abort matches Some(c) && condition_holds(c, vars)) ==> wait_var_known(wait, vars))
}

/// The story variable a wait condition reads, if any, exists.
pub open spec fn wait_var_known(wait: Option<WaitCondition>, vars: Map<Seq<char>, i32>) -> bool {
    wait matches Some(WaitCondition::StoryVar(k, _)) ==> vars.dom().contains(k@)
}

/// What a script does this frame: it is aborted if its abort condition
/// holds, else it waits while its wait condition holds, else it runs.
pub fn script_step(
    abort_condition: &Option<ScriptCondition>,
    wait_condition: &Option<WaitCondition>,
    story_vars: &StoryVars,
    now: u64,
    message_open: bool,
) -> (r: ScriptStep)
    requires
        story_vars.wf(),
        step_vars_known(*abort_condition, *wait_condition, story_vars@),
    ensures
        r == (if *abort_condition matches Some(c) && condition_holds(c, story_vars@) {
            ScriptStep::Abort
        } else if still_waiting(*wait_condition, now, message_open, story_vars@) {
            ScriptStep::Wait
        } else {
            ScriptStep::Run
        }),
{
    match abort_condition {
        Some(c) => {
            if story_vars.get(c.story_var.as_str()) == Some(c.value) {
                return ScriptStep::Abort;
            }
        },
        None => {},
    }
    let waiting = match wait_condition {
        Some(WaitCondition::Time(until)) => *until > now,
        Some(WaitCondition::Message) => message_open,
        Some(WaitCondition::StoryVar(k, v)) => story_vars.get(k.as_str()) != Some(*v),
        None => false,
    };
    if waiting {
        ScriptStep::Wait
    } else {
        ScriptStep::Run
    }
}

/// The wait condition after a frame at time `now` (milliseconds): a time
/// reached, a closed message window and a story variable that holds the
/// awaited value end the wait; otherwise it stays. It stays exactly while
/// `script_step` would let the script wait.
pub fn next_wait_condition(wait: &Option<WaitCondition>, now: u64, message_open: bool, story_vars: &StoryVars) -> (r: Option<WaitCondition>)
    requires
        story_vars.wf(),
        wait_var_known(*wait, story_vars@),
    ensures
        match *wait {
            Some(WaitCondition::Time(until)) => if until > now { r == *wait } else { r is None },
            Some(WaitCondition::Message) => if !message_open { r is None } else { r == *wait },
            Some(WaitCondition::StoryVar(k, v)) => if story_vars@[k@] == v {
                r is None
            } else {
                r matches Some(WaitCondition::StoryVar(k2, v2)) && k2@ == k@ && v2 == v
            },
            None => r is None,
        },
        (r is Some) == still_waiting(*wait, now, message_open, story_vars@),
{
    match wait {
        Some(WaitCondition::Time(until)) => if *until > now { Some(WaitCondition::Time(*until)) } else { None },
        Some(WaitCondition::Message) => if !message_open { None } else { Some(WaitCondition::Message) },
        Some(WaitCondition::StoryVar(k, v)) => if story_vars.get(k.as_str()) == Some(*v) {
            None
        } else {
            Some(WaitCondition::StoryVar(k.clone(), *v))
        },
        None => None,
    }
}

/// Whether an optional name is `name`.
pub open spec fn is_named(o: Option<String>, name: Seq<char>) -> bool {
    match o {
        Some(n) => n@ == name,
        None => false,
    }
}

/// Whether one of the running scripts is named `name`.
pub open spec fn name_running(running: Seq<Option<String>>, name: Seq<char>) -> bool {
    exists|i: int| 0 <= i < running.len() && is_named(#[trigger] running[i], name)
}

/// Whether a script of this name (if it has one) is running.
pub open spec fn name_taken(name: Option<Seq<char>>, running: Seq<Option<String>>) -> bool {
    match name {
        Some(n) => name_running(running, n),
        None => false,
    }
}

/// Whether a script with this metadata starts: its start condition (if any)
/// must evaluate to true, and an exclusive, named script must not already be
/// running.
pub open spec fn start_allowed_spec(m: MetaView, vars: Map<Seq<char>, i32>, running: Seq<Option<String>>) -> bool {
    &&& match m.start_condition {
        None => true,
        Some(c) => condition_spec(c, vars) == Ok::<bool, crate::story::ConditionFailure>(true),
    }
    &&& !(m.exclusive && name_taken(m.name, running))
}

/// Whether a script with this metadata starts, given the names of the
/// scripts already running.
pub fn start_allowed(metadata: &ScriptMetadata, story_vars: &StoryVars, running: &Vec<Option<String>>) -> (b: bool)
    requires
        story_vars.wf(),
    ensures
        b == start_allowed_spec(metadata@, story_vars@, running@),
{
    match &metadata.start_condition {
        Some(condition) => {
            let r = evaluate_story_var_condition(condition.as_str(), story_vars);
            match r {
                Ok(true) => {},
                _ => {
                    return false;
                },
            }
        },
        None => {},
    }
    if metadata.exclusive {
        match &metadata.name {
            Some(name) => {
                let mut i: usize = 0;
                while i < running.len()
                    invariant
                        metadata.exclusive,
                        opt_view(metadata.name) == Some(name@),
                        i <= running@.len(),
                        forall|j: int| 0 <= j < i ==> !is_named(#[trigger] running@[j], name@),
                    decreases running@.len() - i,
                {
                    match &running[i] {
                        Some(other) => {
                            if crate::text::str_eq(other.as_str(), name.as_str()) {
                                assert(is_named(running@[i as int], name@));
                                return false;
                            }
                        },
                        None => {},
                    }
                    i = i + 1;
                }
            },
            None => {},
        }
    }
    true
}

/// The start queue of the script runner: sources queued to start on the
/// next update, in order.
pub struct ScriptManager {
    start_queue: Vec<String>,
}

impl ScriptManager {
    /// The queued sources, oldest first.
    pub closed spec fn queued(&self) -> Seq<Seq<char>> {
        self.start_queue@.map_values(|s: String| s@)
    }

    /// An empty queue.
    pub fn new() -> (m: ScriptManager)
        ensures
            m.queued() == Seq::<Seq<char>>::empty(),
    {
        let m = ScriptManager { start_queue: Vec::new() };
        assert(m.queued() =~= Seq::<Seq<char>>::empty());
        m
    }

    /// Queues a script to start on the next update (starting needs the story
    /// variables; queueing only the source).
    pub fn queue_script(&mut self, source: &str)
        ensures
            final(self).queued() == old(self).queued().push(source@),
    {
        self.start_queue.push(String::from_str(source));
        assert(self.queued() =~= old(self).queued().push(source@));
    }

    /// Takes the queued sources, oldest first, leaving the queue empty.
    pub fn take_queue(&mut self) -> (q: Vec<String>)
        ensures
            q@.map_values(|s: String| s@) == old(self).queued(),
            final(self).queued() == Seq::<Seq<char>>::empty(),
    {
        let mut q: Vec<String> = Vec::new();
        std::mem::swap(&mut q, &mut self.start_queue);
        assert(self.queued() =~= Seq::<Seq<char>>::empty());
        q
    }

    /// Queues the automatic scripts that have a start condition, in order;
    /// one without a start condition would start on every frame, so it is
    /// left out.
    pub fn queue_auto_scripts(&mut self, auto_scripts: &Vec<String>)
        ensures
            final(self).queued() == old(self).queued() + auto_scripts@.map_values(|s: String| s@).filter(
                |src: Seq<char>| metadata_spec(src).start_condition is Some,
            ),
    {
        let ghost pick = |src: Seq<char>| metadata_spec(src).start_condition is Some;
        let ghost srcs = auto_scripts@.map_values(|s: String| s@);
        let mut i: usize = 0;
        while i < auto_scripts.len()
            invariant
                pick == (|src: Seq<char>| metadata_spec(src).start_condition is Some),
                srcs == auto_scripts@.map_values(|s: String| s@),
                i <= auto_scripts@.len(),
                self.queued() == old(self).queued() + srcs.take(i as int).filter(pick),
            decreases auto_scripts@.len() - i,
        {
            let metadata = extract_metadata(auto_scripts[i].as_str());
            let ghost before = self.queued();
            if metadata.start_condition.is_some() {
                self.queue_script(auto_scripts[i].as_str());
            }
            proof {
                reveal(Seq::filter);
                let t = srcs.take(i + 1);
                assert(t.drop_last() =~= srcs.take(i as int));
                assert(t.last() == auto_scripts@[i as int]@);
                assert(t.filter(pick) == (if pick(t.last()) { t.drop_last().filter(pick).push(t.last()) } else { t.drop_last().filter(pick) }));
                assert(pick(t.last()) == metadata.start_condition.is_some());
                if metadata.start_condition.is_some() {
                    assert(self.queued() =~= old(self).queued() + srcs.take(i + 1).filter(pick));
                } else {
                    assert(self.queued() =~= old(self).queued() + srcs.take(i + 1).filter(pick));
                }
            }
            i = i + 1;
        }
        assert(srcs.take(auto_scripts@.len() as int) =~= srcs);
    }
}


// ------------------------------------------------------------------
// Laws
// ------------------------------------------------------------------

/// Only the leading annotation lines count: a source whose first line is
/// not an annotation has no name, is not exclusive and has no start
/// condition, whatever annotations follow.
pub proof fn law_only_leading_annotations(source: Seq<char>)
    requires
        lines_from(source, 0).len() == 0 || !starts_with(lines_from(source, 0)[0], "---"@),
    ensures
        metadata_spec(source) == (MetaView { name: None, exclusive: false, start_condition: None }),
{
}

/// A sub-script never holds a `--#` marker: it ends at the first one after
/// its label.
pub proof fn law_sub_script_has_no_marker(source: Seq<char>, label: Seq<char>)
    requires
        sub_script_spec(source, label) is Some,
    ensures
        forall|i: int| !occurs_at(sub_script_spec(source, label)->0, "--#"@, i),
{
    let p = "--# "@ + label;
    let i0 = find_spec(source, p, 0)->0;
    let after = source.subrange(i0 + p.len(), source.len() as int);
    let m = "--#"@;
    crate::text::lemma_find_spec_first(after, m, 0);
    let j = find_spec(after, m, 0)->0;
    let r = after.subrange(0, j);
    assert forall|i: int| !occurs_at(r, m, i) by {
        if occurs_at(r, m, i) {
            reveal_strlit("--#");
            assert(i + m.len() <= j);
            assert(after.subrange(i, i + m.len()) =~= r.subrange(i, i + m.len()));
            assert(occurs_at(after, m, i));
            assert(0 <= i < j);
            assert(false);
        }
    }
}


/// Only an exclusive script is held back by a running script of its name: a
/// script that is not exclusive starts whenever its start condition (if it
/// has one) evaluates to true, whatever scripts are running; an exclusive
/// named script does not start while one of its name runs; and a script
/// whose start condition does not evaluate to true never starts.
pub proof fn law_only_exclusive_scripts_wait(m: MetaView, vars: Map<Seq<char>, i32>, running: Seq<Option<String>>)
    ensures
        !m.exclusive && (m.start_condition matches Some(c) ==> condition_spec(c, vars) == Ok::<bool, crate::story::ConditionFailure>(true))
            ==> start_allowed_spec(m, vars, running),
        m.exclusive && (m.name matches Some(n) && exists|i: int| 0 <= i < running.len() && (#[trigger] running[i]) is Some && running[i]->0@ == n)
            ==> !start_allowed_spec(m, vars, running),
        (m.start_condition matches Some(c) && condition_spec(c, vars) != Ok::<bool, crate::story::ConditionFailure>(true))
            ==> !start_allowed_spec(m, vars, running),
{
    if m.exclusive && (m.name matches Some(n) && exists|i: int| 0 <= i < running.len() && (#[trigger] running[i]) is Some && running[i]->0@ == n) {
        let n = m.name->0;
        let i = choose|i: int| 0 <= i < running.len() && (#[trigger] running[i]) is Some && running[i]->0@ == n;
        assert(is_named(running[i], n));
    }
}

/// The scripts chosen for a trigger are exactly those of that trigger whose
/// start condition, if any, finds its story variable equal to the
/// condition's value: every chosen script has the trigger and a variable
/// holding exactly the value, and every script of the list that has both is
/// chosen.
pub proof fn law_selected_scripts_match(scripts: Seq<ScriptClass>, trigger: ScriptTrigger, vars: Map<Seq<char>, i32>)
    ensures
        ({
            let chosen = scripts.filter(|s: ScriptClass| script_selected(s, trigger, vars));
            &&& forall|i: int| 0 <= i < chosen.len() ==> (#[trigger] chosen[i]).trigger == trigger
                && (chosen[i].start_condition matches Some(c) ==> vars[c.story_var@] == c.value)
            &&& forall|i: int| 0 <= i < scripts.len() && (#[trigger] scripts[i]).trigger == trigger
                && (scripts[i].start_condition matches Some(c) ==> vars[c.story_var@] == c.value)
                ==> chosen.contains(scripts[i])
        }),
{
    let pred = |s: ScriptClass| script_selected(s, trigger, vars);
    let chosen = scripts.filter(pred);
    assert forall|i: int| 0 <= i < chosen.len() implies (#[trigger] chosen[i]).trigger == trigger
        && (chosen[i].start_condition matches Some(c) ==> vars[c.story_var@] == c.value) by {
        scripts.lemma_filter_pred(pred, i);
    }
    assert forall|i: int| 0 <= i < scripts.len() && (#[trigger] scripts[i]).trigger == trigger
        && (scripts[i].start_condition matches Some(c) ==> vars[c.story_var@] == c.value)
        implies chosen.contains(scripts[i]) by {
        assert(pred(scripts[i]));
        scripts.lemma_filter_contains(pred, i);
    }
}


proof fn lemma_split_after_word(word: Seq<char>, rest: Seq<char>)
    requires
        forall|j: int| 0 <= j < word.len() ==> word[j] != ' ',
    ensures
        split_first_space(word + " "@ + rest) == (word, Some(rest)),
{
    reveal_strlit(" ");
    let body = word + " "@ + rest;
    let w = word.len() as int;
    assert(body[w] == ' ');
    let k = choose|k: int| 0 <= k < body.len() && body[k] == ' ' && forall|j: int| 0 <= j < k ==> body[j] != ' ';
    if k < w {
        assert(body[k] == word[k]);
    }
    if k > w {
        assert(body[w] != ' ');
    }
    assert(k == w);
    assert(body.subrange(0, w) =~= word);
    assert(body.subrange(w + 1, body.len() as int) =~= rest);
}

proof fn lemma_script_line(m: MetaView, name: Seq<char>)
    ensures
        apply_annotation(m, "---@script "@ + name) == (MetaView { name: Some(name), exclusive: m.exclusive, start_condition: m.start_condition }),
{
    reveal_strlit("---@script ");
    reveal_strlit("@script");
    reveal_strlit(" ");
    let l = "---@script "@ + name;
    assert(l.subrange(3, l.len() as int) =~= "@script"@ + " "@ + name);
    lemma_split_after_word("@script"@, name);
}

proof fn lemma_exclusive_line(m: MetaView)
    ensures
        apply_annotation(m, "---@exclusive"@) == (MetaView { name: m.name, exclusive: true, start_condition: m.start_condition }),
{
    reveal_strlit("---@exclusive");
    reveal_strlit("@exclusive");
    reveal_strlit("@script");
    let l = "---@exclusive"@;
    assert(l.subrange(3, l.len() as int) =~= "@exclusive"@);
    assert(!exists|k: int| 0 <= k < "@exclusive"@.len() && "@exclusive"@[k] == ' ');
    assert("@script"@ != "@exclusive"@);
}

proof fn lemma_condition_line(m: MetaView, expr: Seq<char>)
    ensures
        apply_annotation(m, "---@start_condition "@ + expr) == (MetaView { name: m.name, exclusive: m.exclusive, start_condition: Some(expr) }),
{
    reveal_strlit("---@start_condition ");
    reveal_strlit("@start_condition");
    reveal_strlit("@script");
    reveal_strlit("@exclusive");
    reveal_strlit(" ");
    let l = "---@start_condition "@ + expr;
    assert(l.subrange(3, l.len() as int) =~= "@start_condition"@ + " "@ + expr);
    lemma_split_after_word("@start_condition"@, expr);
    assert("@start_condition"@.len() != "@script"@.len());
    assert("@start_condition"@.len() != "@exclusive"@.len());
}

/// What each annotation line does to a script's metadata:
/// `---@script NAME` names it `NAME`, `---@exclusive` makes it exclusive and
/// `---@start_condition EXPR` gives it the start condition `EXPR`; each
/// leaves the other fields as they were.
pub proof fn law_annotation_lines(m: MetaView, name: Seq<char>, expr: Seq<char>)
    ensures
        apply_annotation(m, "---@script "@ + name) == (MetaView { name: Some(name), exclusive: m.exclusive, start_condition: m.start_condition }),
        apply_annotation(m, "---@exclusive"@) == (MetaView { name: m.name, exclusive: true, start_condition: m.start_condition }),
        apply_annotation(m, "---@start_condition "@ + expr) == (MetaView { name: m.name, exclusive: m.exclusive, start_condition: Some(expr) }),
{
    lemma_script_line(m, name);
    lemma_exclusive_line(m);
    lemma_condition_line(m, expr);
}

} // verus!
