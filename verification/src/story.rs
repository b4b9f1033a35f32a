//! Story variables (named integers that scripts read and write) and the
//! conditions over them that decide whether a script starts.
use crate::text::{chars_of, decimal, find_chars, find_spec, i32_to_string, str_eq};
use vstd::prelude::*;
use vstd::string::*;

verus! {

/// The map that a list of (name, value) entries stands for: later entries
/// win.
pub open spec fn entries_map(s: Seq<(String, i32)>) -> Map<Seq<char>, i32>
    decreases s.len(),
{
    if s.len() == 0 {
        Map::empty()
    } else {
        entries_map(s.drop_last()).insert(s.last().0@, s.last().1)
    }
}

/// No two entries share a name.
pub open spec fn keys_distinct(s: Seq<(String, i32)>) -> bool {
    forall|i: int, j: int| 0 <= i < s.len() && 0 <= j < s.len() && i != j ==> (#[trigger] s[i]).0@ != (#[trigger] s[j]).0@
}

proof fn lemma_entries_absent(s: Seq<(String, i32)>, key: Seq<char>)
    requires
        forall|i: int| 0 <= i < s.len() ==> (#[trigger] s[i]).0@ != key,
    ensures
        !entries_map(s).dom().contains(key),
    decreases s.len(),
{
    if s.len() > 0 {
        lemma_entries_absent(s.drop_last(), key);
    }
}

proof fn lemma_entries_at(s: Seq<(String, i32)>, i: int)
    requires
        keys_distinct(s),
        0 <= i < s.len(),
    ensures
        entries_map(s).dom().contains(s[i].0@),
        entries_map(s)[s[i].0@] == s[i].1,
    decreases s.len(),
{
    if i < s.len() - 1 {
        assert(s.last().0@ != s[i].0@);
        lemma_entries_at(s.drop_last(), i);
    }
}

proof fn lemma_entries_update(s: Seq<(String, i32)>, i: int, e: (String, i32))
    requires
        keys_distinct(s),
        0 <= i < s.len(),
        e.0@ == s[i].0@,
    ensures
        entries_map(s.update(i, e)) == entries_map(s).insert(e.0@, e.1),
    decreases s.len(),
{
    let t = s.update(i, e);
    if i == s.len() - 1 {
        assert(t.drop_last() =~= s.drop_last());
        assert forall|j: int| 0 <= j < s.len() - 1 implies (#[trigger] s.drop_last()[j]).0@ != e.0@ by {
            assert(s[j].0@ != s[i].0@);
        }
        lemma_entries_absent(s.drop_last(), e.0@);
        assert(entries_map(t) =~= entries_map(s).insert(e.0@, e.1));
    } else {
        assert(t.drop_last() =~= s.drop_last().update(i, e));
        lemma_entries_update(s.drop_last(), i, e);
        assert(s.last().0@ != e.0@);
        assert(entries_map(t) =~= entries_map(s).insert(e.0@, e.1));
    }
}

/// The value of variable `k`, if it exists.
pub open spec fn story_get(m: Map<Seq<char>, i32>, k: Seq<char>) -> Option<i32> {
    if m.dom().contains(k) {
        Some(m[k])
    } else {
        None
    }
}

/// The variables after setting `k` to `v`: only a variable that exists is
/// set.
pub open spec fn story_set(m: Map<Seq<char>, i32>, k: Seq<char>, v: i32) -> Map<Seq<char>, i32> {
    if m.dom().contains(k) {
        m.insert(k, v)
    } else {
        m
    }
}

/// Reading a variable after setting it gives the value set when the
/// variable exists; setting a name that is not a variable creates nothing.
pub proof fn law_get_after_set(m: Map<Seq<char>, i32>, k: Seq<char>, v: i32)
    ensures
        story_get(story_set(m, k, v), k) == (if m.dom().contains(k) { Some(v) } else { None::<i32> }),
{
}

/// Setting a variable leaves every other variable as it was.
pub proof fn law_set_leaves_others(m: Map<Seq<char>, i32>, k: Seq<char>, v: i32, other: Seq<char>)
    requires
        other != k,
    ensures
        story_get(story_set(m, k, v), other) == story_get(m, other),
{
}

/// Named integers that scripts read and write to track the story.
pub struct StoryVars {
    pub vars: Vec<(String, i32)>,
}

impl View for StoryVars {
    type V = Map<Seq<char>, i32>;

    open spec fn view(&self) -> Map<Seq<char>, i32> {
        entries_map(self.vars@)
    }
}

impl StoryVars {
    /// No two variables share a name.
    pub open spec fn wf(&self) -> bool {
        keys_distinct(self.vars@)
    }

    /// No variables.
    pub fn new() -> (s: StoryVars)
        ensures
            s.wf(),
            s@ == Map::<Seq<char>, i32>::empty(),
    {
        StoryVars { vars: Vec::new() }
    }

    /// The position of the variable named `key`.
    fn index_of(&self, key: &str) -> (r: Option<usize>)
        requires
            self.wf(),
        ensures
            match r {
                Some(i) => i < self.vars@.len() && self.vars@[i as int].0@ == key@,
                None => !self@.dom().contains(key@),
            },
    {
        let mut i: usize = 0;
        while i < self.vars.len()
            invariant
                i <= self.vars@.len(),
                forall|j: int| 0 <= j < i ==> (#[trigger] self.vars@[j]).0@ != key@,
            decreases self.vars@.len() - i,
        {
            if str_eq(self.vars[i].0.as_str(), key) {
                return Some(i);
            }
            i = i + 1;
        }
        proof {
            lemma_entries_absent(self.vars@, key@);
        }
        None
    }

    /// The value of the variable named `key`, or `None` if there is none.
    pub fn get(&self, key: &str) -> (r: Option<i32>)
        requires
            self.wf(),
        ensures
            r == story_get(self@, key@),
    {
        match self.index_of(key) {
            Some(i) => {
                proof {
                    lemma_entries_at(self.vars@, i as int);
                }
                Some(self.vars[i].1)
            },
            None => None,
        }
    }

    /// Sets the variable named `key` to `val`; a name that is not a variable
    /// is left out (only variables that exist can be set).
    pub fn set(&mut self, key: &str, val: i32)
        requires
            old(self).wf(),
        ensures
            final(self).wf(),
            final(self)@ == story_set(old(self)@, key@, val),
    {
        match self.index_of(key) {
            Some(i) => {
                let name = self.vars[i].0.clone();
                let ghost before = self.vars@;
                proof {
                    lemma_entries_at(before, i as int);
                    lemma_entries_update(before, i as int, (name, val));
                }
                self.vars.set(i, (name, val));
                proof {
                    assert forall|a: int, b: int| 0 <= a < self.vars@.len() && 0 <= b < self.vars@.len() && a != b
                        implies (#[trigger] self.vars@[a]).0@ != (#[trigger] self.vars@[b]).0@ by {
                        assert(before[a].0@ != before[b].0@);
                    }
                }
            },
            None => {},
        }
    }

    /// Adds the variable `key` with value `val`, or sets it if it exists.
    pub fn insert(&mut self, key: String, val: i32)
        requires
            old(self).wf(),
        ensures
            final(self).wf(),
            final(self)@ == old(self)@.insert(key@, val),
    {
        match self.index_of(key.as_str()) {
            Some(i) => {
                let ghost before = self.vars@;
                proof {
                    lemma_entries_update(before, i as int, (key, val));
                }
                self.vars.set(i, (key, val));
                proof {
                    assert forall|a: int, b: int| 0 <= a < self.vars@.len() && 0 <= b < self.vars@.len() && a != b
                        implies (#[trigger] self.vars@[a]).0@ != (#[trigger] self.vars@[b]).0@ by {
                        assert(before[a].0@ != before[b].0@);
                    }
                }
            },
            None => {
                let ghost before = self.vars@;
                proof {
                    assert forall|j: int| 0 <= j < before.len() implies (#[trigger] before[j]).0@ != key@ by {
                        if before[j].0@ == key@ {
                            lemma_entries_at(before, j);
                        }
                    }
                }
                self.vars.push((key, val));
                proof {
                    assert(self.vars@.drop_last() =~= before);
                    assert forall|a: int, b: int| 0 <= a < self.vars@.len() && 0 <= b < self.vars@.len() && a != b
                        implies (#[trigger] self.vars@[a]).0@ != (#[trigger] self.vars@[b]).0@ by {
                        if a < before.len() && b < before.len() {
                            assert(before[a].0@ != before[b].0@);
                        }
                    }
                }
            },
        }
    }
}


/// The pattern of a story variable reference in a condition: a name in
/// braces, e.g. `{met_baker}`.
pub open spec fn story_var_pattern() -> Seq<char> {
    "\\{([^{}]*)\\}"@
}

#[verifier::external_type_specification]
#[verifier::external_body]
pub struct ExRegexError(regex::Error);


/// The pieces of `haystack` between the matches of `pattern` (one more
/// than there are matches), or `None` where the pattern does not compile.
pub uninterp spec fn regex_split_spec(pattern: Seq<char>, haystack: Seq<char>) -> Option<Seq<Seq<char>>>;

/// For each match of `pattern` in `haystack`, the text of capture group
/// `group` (`None` where the group took no part), or `None` where the
/// pattern does not compile.
pub uninterp spec fn regex_captures_spec(pattern: Seq<char>, haystack: Seq<char>, group: usize) -> Option<Seq<Option<Seq<char>>>>;

/// The value of a boolean expression as `evalexpr::eval_boolean` computes
/// it, or `None` where it reports an error.
pub uninterp spec fn eval_boolean_spec(expression: Seq<char>) -> Option<bool>;

/// Compiles `pattern` with `regex::Regex::new` and splits `haystack` with
/// `Regex::split`: the pieces between matches, as the name above gives them.
#[verifier::external_body]
fn regex_split(pattern: &str, haystack: &str) -> (r: Result<Vec<String>, regex::Error>)
    ensures
        match r {
            Ok(v) => regex_split_spec(pattern@, haystack@) == Some(v@.map_values(|s: String| s@)),
            Err(_) => regex_split_spec(pattern@, haystack@) is None,
        },
{
    let re = regex::Regex::new(pattern)?;
    Ok(re.split(haystack).map(|piece| piece.to_string()).collect())
}

/// Compiles `pattern` with `regex::Regex::new` and lists, with
/// `Regex::captures_iter`, the text of capture group `group` of each match.
#[verifier::external_body]
fn regex_captures(pattern: &str, haystack: &str, group: usize) -> (r: Result<Vec<Option<String>>, regex::Error>)
    ensures
        match r {
            Ok(v) => regex_captures_spec(pattern@, haystack@, group) == Some(
                v@.map_values(|o: Option<String>| match o { Some(s) => Some(s@), None => None }),
            ),
            Err(_) => regex_captures_spec(pattern@, haystack@, group) is None,
        },
{
    let re = regex::Regex::new(pattern)?;
    Ok(re.captures_iter(haystack).map(|caps| caps.get(group).map(|m| m.as_str().to_string())).collect())
}

/// Whether `pattern` occurs in `text`.
pub open spec fn occurs_in(text: Seq<char>, pattern: Seq<char>) -> bool {
    find_spec(text, pattern, 0) is Some
}

/// Whether an expression stays clear of the evaluator's functions that can
/// panic instead of reporting an error: `str::substring` (it slices at byte
/// offsets), `shl` and `shr` (plain `i64` shifts) and `math::abs` (plain
/// `i64::abs`). Any text that names one of them is refused.
pub open spec fn eval_safe(expression: Seq<char>) -> bool {
    &&& !occurs_in(expression, "substring"@)
    &&& !occurs_in(expression, "shl"@)
    &&& !occurs_in(expression, "shr"@)
    &&& !occurs_in(expression, "math::abs"@)
}

/// Whether `pattern` occurs in `text`.
fn occurs(text: &Vec<char>, pattern: &str) -> (b: bool)
    ensures
        b == occurs_in(text@, pattern@),
{
    let p = chars_of(pattern);
    find_chars(text, &p, 0).is_some()
}

/// Whether an expression is clear of the functions that can panic.
pub fn is_eval_safe(expression: &str) -> (b: bool)
    ensures
        b == eval_safe(expression@),
{
    let text = chars_of(expression);
    !occurs(&text, "substring") && !occurs(&text, "shl") && !occurs(&text, "shr") && !occurs(&text, "math::abs")
}

/// Evaluates a boolean expression with `evalexpr::eval_boolean`; its error
/// is dropped to `None`, its message is not kept. The functions that can
/// panic are ruled out by `requires`.
#[verifier::external_body]
fn eval_boolean(expression: &str) -> (r: Option<bool>)
    requires
        eval_safe(expression@),
    ensures
        r == eval_boolean_spec(expression@),
{
    evalexpr::eval_boolean(expression).ok()
}

/// Why a condition could not be evaluated, as a plain value.
pub enum ConditionFailure {
    MissingStoryVar(Seq<char>),
    BadPattern,
    Malformed,
    Eval,
}

/// Why a condition could not be evaluated.
#[derive(Clone, Debug, PartialEq, Eq)]
pub enum ConditionError {
    /// The condition names a story variable that does not exist.
    MissingStoryVar(String),
    /// The reference pattern did not compile.
    BadPattern,
    /// The matches of the reference pattern did not line up with the text
    /// between them.
    Malformed,
    /// The expression, with its references replaced, is not a valid boolean
    /// expression.
    Eval,
}

impl View for ConditionError {
    type V = ConditionFailure;

    open spec fn view(&self) -> ConditionFailure {
        match self {
            ConditionError::MissingStoryVar(k) => ConditionFailure::MissingStoryVar(k@),
            ConditionError::BadPattern => ConditionFailure::BadPattern,
            ConditionError::Malformed => ConditionFailure::Malformed,
            ConditionError::Eval => ConditionFailure::Eval,
        }
    }
}

impl ConditionError {
    /// The message shown for this error.
    pub fn message(&self) -> (s: String)
        ensures
            s@ == match self@ {
                ConditionFailure::MissingStoryVar(k) => "no story var `"@ + k + "`"@,
                ConditionFailure::BadPattern => "invalid story var pattern"@,
                ConditionFailure::Malformed => "malformed story var reference"@,
                ConditionFailure::Eval => "invalid boolean expression"@,
            },
    {
        match self {
            ConditionError::MissingStoryVar(k) => {
                let mut s = String::from_str("no story var `");
                s.append(k.as_str());
                s.append("`");
                s
            },
            ConditionError::BadPattern => String::from_str("invalid story var pattern"),
            ConditionError::Malformed => String::from_str("malformed story var reference"),
            ConditionError::Eval => String::from_str("invalid boolean expression"),
        }
    }
}

/// The text a reference stands for: the decimal value of the story variable
/// it names.
pub open spec fn reference_value(key: Option<Seq<char>>, vars: Map<Seq<char>, i32>) -> Result<Seq<char>, ConditionFailure> {
    match key {
        None => Err(ConditionFailure::Malformed),
        Some(k) => if vars.dom().contains(k) {
            Ok(decimal(vars[k] as int))
        } else {
            Err(ConditionFailure::MissingStoryVar(k))
        },
    }
}

/// The text between references, with each reference replaced by the value
/// it stands for; the first reference that fails decides the error.
pub open spec fn substitution(pieces: Seq<Seq<char>>, keys: Seq<Option<Seq<char>>>, vars: Map<Seq<char>, i32>) -> Result<Seq<char>, ConditionFailure>
    decreases keys.len(),
{
    if pieces.len() != keys.len() + 1 {
        Err(ConditionFailure::Malformed)
    } else if keys.len() == 0 {
        Ok(pieces[0])
    } else {
        match substitution(pieces.drop_last(), keys.drop_last(), vars) {
            Err(e) => Err(e),
            Ok(s) => match reference_value(keys.last(), vars) {
                Err(e) => Err(e),
                Ok(v) => Ok(s + v + pieces.last()),
            },
        }
    }
}

proof fn lemma_substitution_err(ps: Seq<Seq<char>>, ks: Seq<Option<Seq<char>>>, vars: Map<Seq<char>, i32>, n: int)
    requires
        ps.len() == ks.len() + 1,
        0 <= n <= ks.len(),
        substitution(ps.take(n + 1), ks.take(n), vars) is Err,
    ensures
        substitution(ps, ks, vars) == substitution(ps.take(n + 1), ks.take(n), vars),
    decreases ks.len() - n,
{
    if n == ks.len() {
        assert(ps.take(n + 1) =~= ps);
        assert(ks.take(n) =~= ks);
    } else {
        assert(ps.take(n + 2).drop_last() =~= ps.take(n + 1));
        assert(ks.take(n + 1).drop_last() =~= ks.take(n));
        lemma_substitution_err(ps, ks, vars, n + 1);
    }
}

/// What evaluating a substituted expression gives: text that names a
/// function that can panic is refused as a bad expression; otherwise the
/// evaluator's result.
pub open spec fn eval_outcome(s: Seq<char>) -> Result<bool, ConditionFailure> {
    if !eval_safe(s) {
        Err(ConditionFailure::Eval)
    } else {
        match eval_boolean_spec(s) {
            Some(b) => Ok(b),
            None => Err(ConditionFailure::Eval),
        }
    }
}

/// What evaluating `expression` against the story variables gives: its
/// references are replaced by their values, then the result is evaluated.
pub open spec fn condition_spec(expression: Seq<char>, vars: Map<Seq<char>, i32>) -> Result<bool, ConditionFailure> {
    match (regex_split_spec(story_var_pattern(), expression), regex_captures_spec(story_var_pattern(), expression, 1)) {
        (Some(pieces), Some(keys)) => match substitution(pieces, keys, vars) {
            Err(e) => Err(e),
            Ok(s) => eval_outcome(s),
        },
        _ => Err(ConditionFailure::BadPattern),
    }
}

/// The outcome of a condition evaluation as a plain value.
pub open spec fn outcome_view(r: Result<bool, ConditionError>) -> Result<bool, ConditionFailure> {
    match r {
        Ok(b) => Ok(b),
        Err(e) => Err(e@),
    }
}

/// The text between references (`pieces`, one more than `keys`) with each
/// reference replaced by the decimal value of the story variable it names.
pub fn substitute_story_vars(pieces: &Vec<String>, keys: &Vec<Option<String>>, vars: &StoryVars) -> (r: Result<String, ConditionError>)
    requires
        vars.wf(),
    ensures
        match substitution(pieces@.map_values(|s: String| s@), keys@.map_values(|o: Option<String>| match o { Some(s) => Some(s@), None => None }), vars@) {
            Ok(t) => r matches Ok(s) && s@ == t,
            Err(f) => r matches Err(e) && e@ == f,
        },
{
    let ghost ps = pieces@.map_values(|s: String| s@);
    let ghost ks = keys@.map_values(|o: Option<String>| match o { Some(s) => Some(s@), None => None });
    if pieces.len() == 0 || pieces.len() - 1 != keys.len() {
        return Err(ConditionError::Malformed);
    }
    let mut out = pieces[0].clone();
    let mut i: usize = 0;
    proof {
        assert(ps.take(1).drop_last() =~= Seq::<Seq<char>>::empty());
        assert(ks.take(0) =~= Seq::<Option<Seq<char>>>::empty());
        assert(ps.take(1)[0] == ps[0]);
    }
    while i < keys.len()
        invariant
            vars.wf(),
            pieces@.len() == keys@.len() + 1,
            ps == pieces@.map_values(|s: String| s@),
            ks == keys@.map_values(|o: Option<String>| match o { Some(s) => Some(s@), None => None }),
            i <= keys@.len(),
            substitution(ps.take(i + 1), ks.take(i as int), vars@) == Ok::<Seq<char>, ConditionFailure>(out@),
        decreases keys@.len() - i,
    {
        proof {
            assert(ps.take(i + 2).drop_last() =~= ps.take(i + 1));
            assert(ks.take(i + 1).drop_last() =~= ks.take(i as int));
        }
        match &keys[i] {
            None => {
                proof {
                    lemma_substitution_err(ps, ks, vars@, i + 1);
                }
                return Err(ConditionError::Malformed);
            },
            Some(k) => {
                match vars.get(k.as_str()) {
                    None => {
                        proof {
                            lemma_substitution_err(ps, ks, vars@, i + 1);
                        }
                        return Err(ConditionError::MissingStoryVar(k.clone()));
                    },
                    Some(v) => {
                        let text = i32_to_string(v);
                        out.append(text.as_str());
                        out.append(pieces[i + 1].as_str());
                    },
                }
            },
        }
        i = i + 1;
    }
    proof {
        assert(ps.take(keys@.len() + 1int) =~= ps);
        assert(ks.take(keys@.len() as int) =~= ks);
    }
    Ok(out)
}

/// Evaluates an already substituted boolean expression.
pub fn evaluate_substituted(expression: &str) -> (r: Result<bool, ConditionError>)
    ensures
        outcome_view(r) == eval_outcome(expression@),
{
    if !is_eval_safe(expression) {
        return Err(ConditionError::Eval);
    }
    match eval_boolean(expression) {
        Some(b) => Ok(b),
        None => Err(ConditionError::Eval),
    }
}

/// Evaluates a script's start condition: each `{name}` is replaced by the
/// value of the story variable `name`, then the text is evaluated as a
/// boolean expression.
pub fn evaluate_story_var_condition(expression: &str, story_vars: &StoryVars) -> (r: Result<bool, ConditionError>)
    requires
        story_vars.wf(),
    ensures
        outcome_view(r) == condition_spec(expression@, story_vars@),
{
    let pieces = match regex_split("\\{([^{}]*)\\}", expression) {
        Ok(p) => p,
        Err(_) => {
            return Err(ConditionError::BadPattern);
        },
    };
    let keys = match regex_captures("\\{([^{}]*)\\}", expression, 1) {
        Ok(k) => k,
        Err(_) => {
            return Err(ConditionError::BadPattern);
        },
    };
    let with_values = substitute_story_vars(&pieces, &keys, story_vars)?;
    evaluate_substituted(with_values.as_str())
}

} // verus!
