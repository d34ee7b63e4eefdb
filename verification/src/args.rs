//! The command line's arguments, and parsing of `--input key=value`.

use vstd::prelude::*;

use crate::text::{is_white_space, is_whitespace};
use crate::xml::{chars_of, string_from_chars};

verus! {

broadcast use vstd::seq::group_seq_axioms;

/// Compiles a Typst file into a visually faithful DOCX document.
///
/// The output places every page element at its exact position, so it looks
/// like the PDF output but is not meant to be edited. Requires Word 2013 or
/// later to display.
pub struct Args {
    /// Path to the input Typst file.
    pub input: String,
    /// Path to the output DOCX file. Defaults to the input with the
    /// extension replaced by `.docx`.
    pub output: Option<String>,
    /// Configures the project root (for absolute paths).
    pub root: Option<String>,
    /// Adds additional directories that are recursively searched for fonts.
    pub font_paths: Vec<String>,
    /// Ensures system fonts won't be searched.
    pub ignore_system_fonts: bool,
    /// String key-value pairs visible through `sys.inputs`.
    pub inputs: Vec<(String, String)>,
}

/// `s` without its leading whitespace.
pub open spec fn trim_start(s: Seq<char>) -> Seq<char>
    decreases s.len(),
{
    if s.len() > 0 && is_white_space(s[0]) { trim_start(s.drop_first()) } else { s }
}

/// `s` without its trailing whitespace.
pub open spec fn trim_end(s: Seq<char>) -> Seq<char>
    decreases s.len(),
{
    if s.len() > 0 && is_white_space(s.last()) { trim_end(s.drop_last()) } else { s }
}

/// `s` without leading and trailing whitespace, as `str::trim` gives it.
pub open spec fn trim(s: Seq<char>) -> Seq<char> {
    trim_end(trim_start(s))
}

/// Whether `s` holds an equal sign.
pub open spec fn has_eq(s: Seq<char>) -> bool {
    exists|i: int| 0 <= i < s.len() && s[i] == '='
}

/// The position of the first equal sign in `s`.
pub open spec fn first_eq(s: Seq<char>) -> int {
    choose|i: int| 0 <= i < s.len() && s[i] == '=' && forall|j: int| 0 <= j < i ==> s[j] != '='
}

pub open spec fn missing_eq_message() -> Seq<char> {
    "input must be a key and a value separated by an equal sign"@
}

pub open spec fn empty_key_message() -> Seq<char> {
    "the key was missing or empty"@
}

/// The outcome of parsing `raw` as `key=value`: split at the first equal
/// sign, both sides trimmed; the key must not be empty.
pub open spec fn parsed_pair(raw: Seq<char>) -> Result<(Seq<char>, Seq<char>), Seq<char>> {
    if !has_eq(raw) {
        Err(missing_eq_message())
    } else {
        let i = first_eq(raw);
        let key = trim(raw.take(i));
        if key.len() == 0 {
            Err(empty_key_message())
        } else {
            Ok((key, trim(raw.skip(i + 1))))
        }
    }
}

/// The view of a parse result.
pub open spec fn pair_view(r: Result<(String, String), String>) -> Result<(Seq<char>, Seq<char>), Seq<char>> {
    match r {
        Ok((k, v)) => Ok((k@, v@)),
        Err(e) => Err(e@),
    }
}

proof fn lemma_trim_start(s: Seq<char>, k: int)
    requires
        0 <= k <= s.len(),
        forall|j: int| 0 <= j < k ==> is_white_space(#[trigger] s[j]),
        k == s.len() || !is_white_space(s[k]),
    ensures
        trim_start(s) == s.skip(k),
    decreases k,
{
    if k == 0 {
        assert(s.skip(0) =~= s);
    } else {
        let t = s.drop_first();
        assert forall|j: int| 0 <= j < k - 1 implies is_white_space(#[trigger] t[j]) by {
            assert(t[j] == s[j + 1]);
        }
        if k < s.len() {
            assert(t[k - 1] == s[k]);
        }
        lemma_trim_start(t, k - 1);
        assert(t.skip(k - 1) =~= s.skip(k));
    }
}

proof fn lemma_trim_end(s: Seq<char>, k: int)
    requires
        0 <= k <= s.len(),
        forall|j: int| k <= j < s.len() ==> is_white_space(#[trigger] s[j]),
        k == 0 || !is_white_space(s[k - 1]),
    ensures
        trim_end(s) == s.take(k),
    decreases s.len() - k,
{
    if k == s.len() {
        assert(s.take(k) =~= s);
    } else {
        let t = s.drop_last();
        assert forall|j: int| k <= j < t.len() implies is_white_space(#[trigger] t[j]) by {
            assert(t[j] == s[j]);
        }
        if k > 0 {
            assert(t[k - 1] == s[k - 1]);
        }
        lemma_trim_end(t, k);
        assert(t.take(k) =~= s.take(k));
    }
}

/// The trimmed text of `cs[lo..hi]`.
fn trimmed(cs: &Vec<char>, lo: usize, hi: usize) -> (r: String)
    requires
        lo <= hi <= cs@.len(),
    ensures
        r@ == trim(cs@.subrange(lo as int, hi as int)),
{
    let ghost s = cs@.subrange(lo as int, hi as int);
    let mut a = lo;
    while a < hi && is_whitespace(cs[a])
        invariant
            lo <= a <= hi,
            hi <= cs@.len(),
            s == cs@.subrange(lo as int, hi as int),
            forall|j: int| 0 <= j < a - lo ==> is_white_space(#[trigger] s[j]),
        decreases hi - a,
    {
        a = a + 1;
    }
    proof {
        if a < hi {
            assert(s[a - lo] == cs@[a as int]);
        }
        lemma_trim_start(s, a - lo);
    }
    let ghost u = s.skip(a - lo);
    let mut b = hi;
    while b > a && is_whitespace(cs[b - 1])
        invariant
            lo <= a <= b <= hi,
            hi <= cs@.len(),
            u == cs@.subrange(a as int, hi as int),
            forall|j: int| b - a <= j < u.len() ==> is_white_space(#[trigger] u[j]),
        decreases b - a,
    {
        b = b - 1;
    }
    proof {
        assert(u =~= cs@.subrange(a as int, hi as int));
        if b > a {
            assert(u[b - a - 1] == cs@[b - 1]);
        }
        lemma_trim_end(u, b - a);
    }
    let mut out: Vec<char> = Vec::new();
    let mut i = a;
    while i < b
        invariant
            a <= i <= b,
            b <= cs@.len(),
            out@ == cs@.subrange(a as int, i as int),
        decreases b - i,
    {
        out.push(cs[i]);
        i = i + 1;
        proof { assert(out@ =~= cs@.subrange(a as int, i as int)); }
    }
    proof {
        assert(out@ =~= u.take(b - a));
    }
    string_from_chars(&out)
}

/// Parses a `key=value` pair for `--input`.
pub fn parse_input_pair(raw: &str) -> (r: Result<(String, String), String>)
    ensures
        pair_view(r) == parsed_pair(raw@),
{
    let cs = chars_of(raw);
    let mut i: usize = 0;
    while i < cs.len() && cs[i] != '='
        invariant
            i <= cs@.len(),
            cs@ == raw@,
            forall|j: int| 0 <= j < i ==> raw@[j] != '=',
        decreases cs@.len() - i,
    {
        i = i + 1;
    }
    if i == cs.len() {
        proof {
            assert(!has_eq(raw@));
            reveal_strlit("input must be a key and a value separated by an equal sign");
        }
        return Err("input must be a key and a value separated by an equal sign".to_owned());
    }
    proof {
        assert(raw@[i as int] == '=');
        assert(has_eq(raw@));
        let f = first_eq(raw@);
        assert(f == i) by {
            if f < i {
                assert(raw@[f] != '=');
            } else if f > i {
                assert(raw@[i as int] != '=');
            }
        }
        assert(cs@.subrange(0, i as int) =~= raw@.take(i as int));
        assert(cs@.subrange(i + 1, cs@.len() as int) =~= raw@.skip(i + 1));
    }
    let key = trimmed(&cs, 0, i);
    if key.as_str().is_empty() {
        return Err("the key was missing or empty".to_owned());
    }
    let value = trimmed(&cs, i + 1, cs.len());
    Ok((key, value))
}

proof fn lemma_trim_start_shape(s: Seq<char>) -> (k: int)
    ensures
        0 <= k <= s.len(),
        trim_start(s) == s.skip(k),
        trim_start(s).len() > 0 ==> !is_white_space(trim_start(s)[0]),
    decreases s.len(),
{
    if s.len() > 0 && is_white_space(s[0]) {
        let k = lemma_trim_start_shape(s.drop_first());
        assert(s.drop_first().skip(k) =~= s.skip(k + 1));
        k + 1
    } else {
        assert(s.skip(0) =~= s);
        0
    }
}

proof fn lemma_trim_end_shape(s: Seq<char>) -> (k: int)
    ensures
        0 <= k <= s.len(),
        trim_end(s) == s.take(k),
        trim_end(s).len() > 0 ==> !is_white_space(trim_end(s).last()),
    decreases s.len(),
{
    if s.len() > 0 && is_white_space(s.last()) {
        let k = lemma_trim_end_shape(s.drop_last());
        assert(s.drop_last().take(k) =~= s.take(k));
        k
    } else {
        assert(s.take(s.len() as int) =~= s);
        s.len() as int
    }
}

/// `trim(s)` is a stretch of `s` that neither begins nor ends with
/// whitespace.
pub proof fn trim_is_trimmed(s: Seq<char>)
    ensures
        exists|a: int, b: int| 0 <= a <= b <= s.len() && trim(s) == s.subrange(a, b),
        trim(s).len() > 0 ==> !is_white_space(trim(s)[0]) && !is_white_space(trim(s).last()),
{
    let a = lemma_trim_start_shape(s);
    let u = trim_start(s);
    let m = lemma_trim_end_shape(u);
    assert(trim(s) =~= s.subrange(a, a + m));
    if trim(s).len() > 0 {
        assert(trim(s)[0] == u[0]);
    }
}

proof fn lemma_min_eq(s: Seq<char>, k: int) -> (m: int)
    requires
        0 <= k < s.len(),
        s[k] == '=',
    ensures
        0 <= m <= k,
        s[m] == '=',
        forall|j: int| 0 <= j < m ==> s[j] != '=',
    decreases k,
{
    if exists|j: int| 0 <= j < k && s[j] == '=' {
        let j = choose|j: int| 0 <= j < k && s[j] == '=';
        lemma_min_eq(s, j)
    } else {
        k
    }
}

/// The first equal sign is where `first_eq` says.
proof fn lemma_first_eq(s: Seq<char>)
    requires
        has_eq(s),
    ensures
        0 <= first_eq(s) < s.len(),
        s[first_eq(s)] == '=',
        forall|j: int| 0 <= j < first_eq(s) ==> s[j] != '=',
{
    let w = choose|i: int| 0 <= i < s.len() && s[i] == '=';
    let m = lemma_min_eq(s, w);
    assert(0 <= m < s.len() && s[m] == '=' && forall|j: int| 0 <= j < m ==> s[j] != '=');
}

/// A parsed key is not empty and holds no equal sign; neither the key nor
/// the value begins or ends with whitespace.
pub proof fn parsed_pair_is_trimmed(raw: Seq<char>)
    ensures
        parsed_pair(raw) matches Ok(p) ==> {
            &&& p.0.len() > 0
            &&& !p.0.contains('=')
            &&& !is_white_space(p.0[0]) && !is_white_space(p.0.last())
            &&& p.1.len() > 0 ==> !is_white_space(p.1[0]) && !is_white_space(p.1.last())
        },
{
    if has_eq(raw) {
        lemma_first_eq(raw);
        let i = first_eq(raw);
        let head = raw.take(i);
        trim_is_trimmed(head);
        trim_is_trimmed(raw.skip(i + 1));
        let key = trim(head);
        if key.len() > 0 {
            let (a, b) = choose|a: int, b: int| 0 <= a <= b <= head.len() && key == head.subrange(a, b);
            if key.contains('=') {
                let j = choose|j: int| 0 <= j < key.len() && key[j] == '=';
                assert(key[j] == head[a + j]);
                assert(raw[a + j] == '=');
            }
        }
    }
}

} // verus!
