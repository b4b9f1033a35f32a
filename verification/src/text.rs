//! Character-level helpers over `&str` and `String`.
use vstd::prelude::*;
use vstd::string::*;

verus! {

broadcast use vstd::std_specs::iter::group_iter_axioms;

/// The characters of a string slice, in order.
pub fn chars_of(s: &str) -> (v: Vec<char>)
    ensures
        v@ == s@,
{
    let mut v: Vec<char> = Vec::new();
    for c in it: s.chars()
        invariant
            v@ == it.seq().subrange(0, it.index() as int),
            it.seq() == s@,
    {
        v.push(c);
    }
    v
}

/// Whether two string slices hold the same characters.
pub fn str_eq(a: &str, b: &str) -> (r: bool)
    ensures
        r == (a@ == b@),
{
    let x = chars_of(a);
    let y = chars_of(b);
    if x.len() != y.len() {
        return false;
    }
    let mut i: usize = 0;
    while i < x.len()
        invariant
            x@ == a@,
            y@ == b@,
            x.len() == y.len(),
            i <= x.len(),
            forall|j: int| 0 <= j < i ==> x@[j] == y@[j],
        decreases x.len() - i,
    {
        if x[i] != y[i] {
            return false;
        }
        i = i + 1;
    }
    assert(x@ =~= y@);
    true
}

/// A new `String` holding the characters `s[from..to]`.
pub fn substring(s: &str, from: usize, to: usize) -> (r: String)
    requires
        from <= to <= s@.len(),
    ensures
        r@ == s@.subrange(from as int, to as int),
{
    String::from_str(s.substring_char(from, to))
}


/// Appends a character to a `String` (std's `String::push`): the string
/// afterwards is the old one followed by `c`.
#[verifier::external_body]
pub(crate) fn push_char(s: &mut String, c: char)
    ensures
        final(s)@ == old(s)@.push(c),
{
    s.push(c);
}

/// A `String` holding the given characters.
pub fn string_from_chars(v: &Vec<char>) -> (s: String)
    ensures
        s@ == v@,
{
    let mut s = String::new();
    let mut i: usize = 0;
    while i < v.len()
        invariant
            i <= v@.len(),
            s@ == v@.take(i as int),
        decreases v@.len() - i,
    {
        push_char(&mut s, v[i]);
        i = i + 1;
        assert(s@ =~= v@.take(i as int));
    }
    assert(v@.take(v@.len() as int) =~= v@);
    s
}

/// Whether `n` occurs in `h` at index `i`.
pub open spec fn occurs_at(h: Seq<char>, n: Seq<char>, i: int) -> bool {
    0 <= i && i + n.len() <= h.len() && h.subrange(i, i + n.len()) == n
}

/// The first index at or after `from` where `n` occurs in `h`, if any.
#[verifier::opaque]
pub open spec fn find_spec(h: Seq<char>, n: Seq<char>, from: int) -> Option<int> {
    if exists|i: int| from <= i && occurs_at(h, n, i) {
        Some(choose|i: int| from <= i && occurs_at(h, n, i) && forall|j: int| from <= j < i ==> !occurs_at(h, n, j))
    } else {
        None
    }
}

/// What the first occurrence at or after `from` is: an occurrence, with
/// none between `from` and it.
pub proof fn lemma_find_spec_first(h: Seq<char>, n: Seq<char>, from: int)
    requires
        find_spec(h, n, from) is Some,
    ensures
        from <= find_spec(h, n, from)->0,
        occurs_at(h, n, find_spec(h, n, from)->0),
        forall|k: int| from <= k < find_spec(h, n, from)->0 ==> !occurs_at(h, n, k),
{
    reveal(find_spec);
    let w = choose|i: int| from <= i && occurs_at(h, n, i);
    lemma_min_occurrence(h, n, from, w);
}

proof fn lemma_min_occurrence(h: Seq<char>, n: Seq<char>, from: int, w: int)
    requires
        from <= w,
        occurs_at(h, n, w),
    ensures
        exists|i: int| from <= i && occurs_at(h, n, i) && forall|j: int| from <= j < i ==> !occurs_at(h, n, j),
    decreases w - from,
{
    if exists|j: int| from <= j < w && occurs_at(h, n, j) {
        let j = choose|j: int| from <= j < w && occurs_at(h, n, j);
        lemma_min_occurrence(h, n, from, j);
    } else {
        assert(from <= w && occurs_at(h, n, w) && forall|j: int| from <= j < w ==> !occurs_at(h, n, j));
    }
}

/// Whether `n` occurs in `h` at index `i`.
pub fn matches_at(h: &Vec<char>, n: &Vec<char>, i: usize) -> (b: bool)
    ensures
        b == occurs_at(h@, n@, i as int),
{
    if i > h.len() || n.len() > h.len() - i {
        return false;
    }
    let mut k: usize = 0;
    while k < n.len()
        invariant
            i + n@.len() <= h.len(),
            k <= n@.len(),
            forall|j: int| 0 <= j < k ==> h@[i + j] == n@[j],
        decreases n@.len() - k,
    {
        if h[i + k] != n[k] {
            assert(h@.subrange(i as int, i + n@.len())[k as int] != n@[k as int]);
            return false;
        }
        k = k + 1;
    }
    assert(h@.subrange(i as int, i + n@.len()) =~= n@);
    true
}

/// The first index at or after `from` where `n` occurs in `h`.
pub fn find_chars(h: &Vec<char>, n: &Vec<char>, from: usize) -> (r: Option<usize>)
    ensures
        match r {
            Some(i) => find_spec(h@, n@, from as int) == Some(i as int) && from <= i && occurs_at(h@, n@, i as int),
            None => find_spec(h@, n@, from as int) is None,
        },
{
    reveal(find_spec);
    if from > h.len() {
        return None;
    }
    let mut i: usize = from;
    loop
        invariant
            from <= i <= h@.len(),
            forall|j: int| from <= j < i ==> !occurs_at(h@, n@, j),
        ensures
            i == h@.len(),
            forall|j: int| from <= j <= i ==> !occurs_at(h@, n@, j),
        decreases h@.len() - i,
    {
        if matches_at(h, n, i) {
            proof {
                reveal(find_spec);
                let c = choose|c: int| from <= c && occurs_at(h@, n@, c) && forall|j: int| from <= j < c ==> !occurs_at(h@, n@, j);
                assert(from <= i && occurs_at(h@, n@, i as int) && forall|j: int| from <= j < i ==> !occurs_at(h@, n@, j));
                assert(c == i) by {
                    if c < i {
                        assert(!occurs_at(h@, n@, c));
                    } else if c > i {
                        assert(!occurs_at(h@, n@, i as int));
                    }
                }
            }
            return Some(i);
        }
        if i == h.len() {
            break;
        }
        i = i + 1;
    }
    proof {
        reveal(find_spec);
        assert forall|j: int| from <= j implies !occurs_at(h@, n@, j) by {
            if j > i {
                assert(j + n@.len() > h@.len());
            }
        }
    }
    None
}

/// The decimal digits of `n`.
pub open spec fn digits(n: nat) -> Seq<char>
    decreases n,
{
    if n < 10 {
        seq![(n + 48) as char]
    } else {
        digits(n / 10).push(((n % 10) + 48) as char)
    }
}

/// How `i32`'s `to_string` writes a number: a minus sign for negatives, then
/// the decimal digits of the magnitude.
pub open spec fn decimal(i: int) -> Seq<char> {
    if i < 0 {
        seq!['-'] + digits((-i) as nat)
    } else {
        digits(i as nat)
    }
}

/// The decimal digits of `n`, most significant first.
fn digits_of(n: u32) -> (v: Vec<char>)
    ensures
        v@ == digits(n as nat),
    decreases n,
{
    if n < 10 {
        let c = char_of_digit(n);
        let mut v: Vec<char> = Vec::new();
        v.push(c);
        assert(v@ =~= seq![(n as nat + 48) as char]);
        v
    } else {
        let mut v = digits_of(n / 10);
        let c = char_of_digit(n % 10);
        v.push(c);
        v
    }
}

/// The character of a decimal digit.
fn char_of_digit(d: u32) -> (c: char)
    requires
        d < 10,
    ensures
        c == ((d as nat + 48) as char),
{
    match d {
        0 => '0',
        1 => '1',
        2 => '2',
        3 => '3',
        4 => '4',
        5 => '5',
        6 => '6',
        7 => '7',
        8 => '8',
        _ => '9',
    }
}

/// An `i32` written in decimal, as its `to_string` writes it.
pub fn i32_to_string(i: i32) -> (s: String)
    ensures
        s@ == decimal(i as int),
{
    let wide = i as i64;
    if wide < 0 {
        let mag = (-wide) as u32;
        let d = digits_of(mag);
        let mut v: Vec<char> = Vec::new();
        v.push('-');
        let mut k: usize = 0;
        while k < d.len()
            invariant
                k <= d@.len(),
                v@ == seq!['-'] + d@.take(k as int),
            decreases d@.len() - k,
        {
            v.push(d[k]);
            k = k + 1;
            assert(v@ =~= seq!['-'] + d@.take(k as int));
        }
        assert(d@.take(d@.len() as int) =~= d@);
        string_from_chars(&v)
    } else {
        let d = digits_of(wide as u32);
        string_from_chars(&d)
    }
}

/// Whether a character has the Unicode `White_Space` property, as
/// `char::is_whitespace` decides.
pub open spec fn white_space(c: char) -> bool {
    let u = c as u32;
    ||| (0x9 <= u <= 0xd)
    ||| u == 0x20
    ||| u == 0x85
    ||| u == 0xa0
    ||| u == 0x1680
    ||| (0x2000 <= u <= 0x200a)
    ||| u == 0x2028
    ||| u == 0x2029
    ||| u == 0x202f
    ||| u == 0x205f
    ||| u == 0x3000
}

/// Whether a character has the Unicode `White_Space` property.
pub fn is_white_space(c: char) -> (b: bool)
    ensures
        b == white_space(c),
{
    let u = c as u32;
    (0x9 <= u && u <= 0xd) || u == 0x20 || u == 0x85 || u == 0xa0 || u == 0x1680
        || (0x2000 <= u && u <= 0x200a) || u == 0x2028 || u == 0x2029 || u == 0x202f
        || u == 0x205f || u == 0x3000
}

/// The length of `s` without its trailing white space.
pub open spec fn trimmed_len(s: Seq<char>) -> int
    decreases s.len(),
{
    if s.len() == 0 {
        0
    } else if white_space(s.last()) {
        trimmed_len(s.drop_last())
    } else {
        s.len() as int
    }
}

proof fn lemma_trimmed_len_bound(s: Seq<char>)
    ensures
        0 <= trimmed_len(s) <= s.len(),
    decreases s.len(),
{
    if s.len() > 0 && white_space(s.last()) {
        lemma_trimmed_len_bound(s.drop_last());
    }
}

/// The end of `v[from..to]` without its trailing white space.
pub fn trim_end_index(v: &Vec<char>, from: usize, to: usize) -> (e: usize)
    requires
        from <= to <= v@.len(),
    ensures
        from <= e <= to,
        e == from + trimmed_len(v@.subrange(from as int, to as int)),
{
    let mut e: usize = to;
    proof {
        lemma_trimmed_len_bound(v@.subrange(from as int, to as int));
    }
    while e > from && is_white_space(v[e - 1])
        invariant
            from <= e <= to,
            to <= v@.len(),
            trimmed_len(v@.subrange(from as int, to as int)) == trimmed_len(v@.subrange(from as int, e as int)),
        decreases e,
    {
        assert(v@.subrange(from as int, e - 1) =~= v@.subrange(from as int, e as int).drop_last());
        e = e - 1;
    }
    e
}


/// Whether a character is an ASCII decimal digit.
pub open spec fn is_digit_char(c: char) -> bool {
    48 <= (c as u32) <= 57
}

/// Whether every character of `s` is an ASCII decimal digit.
pub open spec fn all_digits(s: Seq<char>) -> bool {
    forall|i: int| 0 <= i < s.len() ==> is_digit_char(#[trigger] s[i])
}

/// The number that a run of decimal digits spells.
pub open spec fn digits_value(s: Seq<char>) -> int
    decreases s.len(),
{
    if s.len() == 0 {
        0
    } else {
        digits_value(s.drop_last()) * 10 + ((s.last() as u32) - 48)
    }
}

/// The sign of a number's text and the rest: a leading `-` makes it
/// negative, a leading `+` is dropped.
pub open spec fn sign_and_body(s: Seq<char>) -> (bool, Seq<char>) {
    if s.len() > 0 && s[0] == '-' {
        (true, s.drop_first())
    } else if s.len() > 0 && s[0] == '+' {
        (false, s.drop_first())
    } else {
        (false, s)
    }
}

/// The `i32` that `str::parse::<i32>` reads from `s`: an optional sign and
/// at least one decimal digit, nothing else, within the range of `i32`;
/// `None` for any other text.
pub open spec fn parse_i32_value(s: Seq<char>) -> Option<i32> {
    let (negative, body) = sign_and_body(s);
    if body.len() == 0 || !all_digits(body) {
        None
    } else {
        let v = if negative { -digits_value(body) } else { digits_value(body) };
        if i32::MIN <= v <= i32::MAX {
            Some(v as i32)
        } else {
            None
        }
    }
}

proof fn lemma_digits_value_grows(s: Seq<char>, k: int)
    requires
        all_digits(s),
        0 <= k <= s.len(),
    ensures
        0 <= digits_value(s.take(k)) <= digits_value(s),
    decreases s.len(),
{
    if k < s.len() {
        assert(all_digits(s.drop_last()));
        lemma_digits_value_grows(s.drop_last(), k);
        assert(s.drop_last().take(k) =~= s.take(k));
        lemma_digits_value_grows(s.drop_last(), s.len() - 1);
        assert(s.drop_last().take(s.len() - 1) =~= s.drop_last());
    } else {
        assert(s.take(k) =~= s);
        if s.len() > 0 {
            assert(all_digits(s.drop_last()));
            lemma_digits_value_grows(s.drop_last(), s.len() - 1);
            assert(s.drop_last().take(s.len() - 1) =~= s.drop_last());
        }
    }
}

/// Reads an `i32` written in decimal with an optional sign, as
/// `str::parse::<i32>` does; `None` where that reports an error.
pub fn parse_i32(s: &str) -> (r: Option<i32>)
    ensures
        r == parse_i32_value(s@),
{
    let cs = chars_of(s);
    let n = cs.len();
    let mut negative = false;
    let mut start: usize = 0;
    if n > 0 && cs[0] == '-' {
        negative = true;
        start = 1;
    } else if n > 0 && cs[0] == '+' {
        start = 1;
    }
    let ghost body = cs@.subrange(start as int, n as int);
    assert(sign_and_body(s@) == (negative, body));
    if start == n {
        return None;
    }
    let mut acc: i64 = 0;
    let mut i: usize = start;
    while i < n
        invariant
            cs@ == s@,
            n == cs@.len(),
            start <= i <= n,
            body == cs@.subrange(start as int, n as int),
            sign_and_body(s@) == (negative, body),
            all_digits(body.take(i - start)),
            acc == digits_value(body.take(i - start)),
            0 <= acc <= 2147483648,
        decreases n - i,
    {
        let c = cs[i];
        let u = c as u32;
        if u < 48 || u > 57 {
            assert(body[i - start] == c);
            assert(!is_digit_char(body[i - start]));
            return None;
        }
        let ghost prefix = body.take(i - start);
        acc = acc * 10 + (u - 48) as i64;
        i = i + 1;
        proof {
            assert(body.take(i - start).drop_last() =~= prefix);
            assert(body.take(i - start).last() == c);
            assert(all_digits(body.take(i - start)));
        }
        if acc > 2147483648 {
            proof {
                if all_digits(body) {
                    lemma_digits_value_grows(body, i - start);
                }
            }
            return None;
        }
    }
    proof {
        assert(body.take(n - start) =~= body);
    }
    if negative {
        Some((-acc) as i32)
    } else if acc > 2147483647 {
        None
    } else {
        Some(acc as i32)
    }
}


proof fn lemma_digits_read_back(n: nat)
    ensures
        all_digits(digits(n)),
        digits(n).len() > 0,
        digits_value(digits(n)) == n,
    decreases n,
{
    let c = ((n % 10) + 48) as char;
    assert((c as u32) == (n % 10) + 48);
    assert((n / 10) * 10 + n % 10 == n) by (nonlinear_arith);
    if n < 10 {
        assert(digits(n).drop_last() =~= Seq::<char>::empty());
        assert(digits(n).last() == c);
        assert(digits_value(digits(n)) == digits_value(digits(n).drop_last()) * 10 + ((digits(n).last() as u32) - 48));
        assert(digits_value(Seq::<char>::empty()) == 0);
    } else {
        lemma_digits_read_back(n / 10);
        let d = digits(n);
        assert(d.drop_last() =~= digits(n / 10));
        assert(d.last() == c);
        assert(digits_value(d) == digits_value(d.drop_last()) * 10 + ((d.last() as u32) - 48));
        assert(digits_value(d.drop_last()) == n / 10);
        assert forall|i: int| 0 <= i < d.len() implies is_digit_char(#[trigger] d[i]) by {
            if i < d.len() - 1 {
                assert(d[i] == digits(n / 10)[i]);
            }
        }
    }
}

/// Reading back the decimal text of an `i32` gives the same `i32`.
pub(crate) proof fn lemma_decimal_reads_back(v: i32)
    ensures
        parse_i32_value(decimal(v as int)) == Some(v),
{
    if v < 0 {
        let m = (-(v as int)) as nat;
        lemma_digits_read_back(m);
        let s = decimal(v as int);
        assert(s[0] == '-');
        assert(s.drop_first() =~= digits(m));
    } else {
        let n = v as nat;
        lemma_digits_read_back(n);
        let s = decimal(v as int);
        assert(is_digit_char(s[0]));
    }
}

} // verus!
