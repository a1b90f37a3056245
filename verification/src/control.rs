//! Interactive decisions and the selection update: what counts as a "yes"
//! answer, how a typed target index is read, when an init may overwrite,
//! and how selecting an index rewrites the document.

use vstd::prelude::*;
use vstd::string::StrSliceExecFns;
use crate::doc::CacheJson;

verus! {

/// Whitespace stripped from an interactive input line: the Unicode
/// `White_Space` characters, exactly what `str::trim` strips.
pub open spec fn line_ws_char(c: char) -> bool {
    (9 <= c as u32 <= 13) || c as u32 == 32 || c as u32 == 0x85 || c as u32 == 0xA0 || c as u32
        == 0x1680 || (0x2000 <= c as u32 <= 0x200A) || c as u32 == 0x2028 || c as u32 == 0x2029
        || c as u32 == 0x202F || c as u32 == 0x205F || c as u32 == 0x3000
}

/// First index at or after `i` holding a non-whitespace character.
pub open spec fn skip_line_ws_from(s: Seq<char>, i: int) -> int
    decreases s.len() - i when 0 <= i <= s.len()
{
    if i < s.len() && line_ws_char(s[i]) {
        skip_line_ws_from(s, i + 1)
    } else {
        i
    }
}

/// One past the last index before `j` holding a non-whitespace character.
pub open spec fn skip_line_ws_back(s: Seq<char>, j: int) -> int
    decreases j when 0 <= j <= s.len()
{
    if j > 0 && line_ws_char(s[j - 1]) {
        skip_line_ws_back(s, j - 1)
    } else {
        j
    }
}

/// The line with leading and trailing whitespace removed.
pub open spec fn trim_spec(s: Seq<char>) -> Seq<char> {
    let a = skip_line_ws_from(s, 0);
    let b = skip_line_ws_back(s, s.len() as int);
    if a >= b {
        Seq::empty()
    } else {
        s.subrange(a, b)
    }
}

pub proof fn lemma_skip_line_ws_from(s: Seq<char>, i: int, j: int)
    requires
        0 <= i <= j <= s.len(),
        forall|k: int| i <= k < j ==> line_ws_char(s[k]),
        j == s.len() || !line_ws_char(s[j]),
    ensures
        skip_line_ws_from(s, i) == j,
    decreases j - i,
{
    if i < j {
        lemma_skip_line_ws_from(s, i + 1, j);
    }
}

proof fn lemma_skip_line_ws_back(s: Seq<char>, j: int, b: int)
    requires
        0 <= b <= j <= s.len(),
        forall|k: int| b <= k < j ==> line_ws_char(s[k]),
        b == 0 || !line_ws_char(s[b - 1]),
    ensures
        skip_line_ws_back(s, j) == b,
    decreases j - b,
{
    if b < j {
        lemma_skip_line_ws_back(s, j - 1, b);
    }
}

/// Indices of the trimmed middle of `s`: everything before `a` and from `b`
/// on is whitespace.  Returns `a >= b` exactly when the line is all
/// whitespace.
fn trim_bounds(s: &str) -> (r: (usize, usize))
    ensures
        r.0 == skip_line_ws_from(s@, 0),
        r.1 == skip_line_ws_back(s@, s@.len() as int),
        r.0 <= s@.len(),
        r.1 <= s@.len(),
{
    let n = s.unicode_len();
    let mut a: usize = 0;
    while a < n && is_ws(s.get_char(a))
        invariant
            a <= n,
            n == s@.len(),
            forall|k: int| 0 <= k < a ==> line_ws_char(s@[k]),
        decreases n - a,
    {
        a = a + 1;
    }
    proof {
        lemma_skip_line_ws_from(s@, 0, a as int);
    }
    let mut b: usize = n;
    while b > 0 && is_ws(s.get_char(b - 1))
        invariant
            b <= n,
            n == s@.len(),
            forall|k: int| b <= k < n ==> line_ws_char(s@[k]),
        decreases b,
    {
        b = b - 1;
    }
    proof {
        lemma_skip_line_ws_back(s@, n as int, b as int);
    }
    (a, b)
}

fn is_ws(c: char) -> (r: bool)
    ensures
        r == line_ws_char(c),
{
    let v = c as u32;
    (9 <= v && v <= 13) || v == 32 || v == 0x85 || v == 0xA0 || v == 0x1680 || (0x2000 <= v && v
        <= 0x200A) || v == 0x2028 || v == 0x2029 || v == 0x202F || v == 0x205F || v == 0x3000
}

/// ASCII lowercase folding, as applied to an answer before comparing it.
pub open spec fn lower_char(c: char) -> char {
    if 65 <= c as u32 <= 90 {
        ((c as u32 + 32) as u8) as char
    } else {
        c
    }
}

pub open spec fn lower_seq(s: Seq<char>) -> Seq<char> {
    s.map_values(|c: char| lower_char(c))
}

/// An answer accepts the overwrite exactly when it reads `y` or `yes`,
/// ASCII-case-insensitively, once surrounding whitespace is stripped.
pub open spec fn affirmative_spec(s: Seq<char>) -> bool {
    lower_seq(trim_spec(s)) == "y"@ || lower_seq(trim_spec(s)) == "yes"@
}

fn to_lower(c: char) -> (r: char)
    ensures
        r == lower_char(c),
{
    if c >= 'A' && c <= 'Z' {
        ((c as u32 + 32) as u8) as char
    } else {
        c
    }
}

/// Whether an interactive answer accepts the overwrite.
pub fn is_affirmative(answer: &str) -> (r: bool)
    ensures
        r == affirmative_spec(answer@),
{
    proof {
        reveal_strlit("y");
        reveal_strlit("yes");
    }
    let (a, b) = trim_bounds(answer);
    if a >= b {
        proof {
            assert(trim_spec(answer@) =~= Seq::<char>::empty());
            assert(lower_seq(trim_spec(answer@)).len() == 0);
        }
        false
    } else {
        let ghost t = trim_spec(answer@);
        let len = b - a;
        if len == 1 {
            let r = to_lower(answer.get_char(a)) == 'y';
            proof {
                assert(lower_seq(t).len() == 1);
                assert(lower_seq(t)[0] == lower_char(answer@[a as int]));
                if lower_char(answer@[a as int]) == 'y' {
                    assert(lower_seq(t) =~= "y"@);
                } else {
                    assert(lower_seq(t) != "y"@);
                    assert(lower_seq(t) != "yes"@);
                }
            }
            r
        } else if len == 3 {
            let c0 = to_lower(answer.get_char(a));
            let c1 = to_lower(answer.get_char(a + 1));
            let c2 = to_lower(answer.get_char(a + 2));
            let r = c0 == 'y' && c1 == 'e' && c2 == 's';
            proof {
                assert(lower_seq(t).len() == 3);
                assert(lower_seq(t)[0] == lower_char(answer@[a as int]));
                assert(lower_seq(t)[1] == lower_char(answer@[a as int + 1]));
                assert(lower_seq(t)[2] == lower_char(answer@[a as int + 2]));
                if c0 == 'y' && c1 == 'e' && c2 == 's' {
                    assert(lower_seq(t) =~= "yes"@);
                } else {
                    assert(lower_seq(t) != "y"@);
                    assert(lower_seq(t) != "yes"@);
                }
            }
            r
        } else {
            proof {
                assert(lower_seq(t).len() == b - a);
                assert(lower_seq(t) != "y"@);
                assert(lower_seq(t) != "yes"@);
            }
            false
        }
    }
}

/// What an init invocation does with the document file.
#[derive(Debug, PartialEq, Eq, Structural)]
pub enum InitAction {
    /// Write the scaffold document (creating or overwriting the file).
    Write,
    /// Leave the existing file untouched.
    Skip,
}

/// Decides an init: an absent file is always written; an existing file is
/// overwritten only on an affirmative answer.  `answer` is `None` when no
/// answer was read (only possible paired with an existing file, where the
/// prompt failed); that declines.
pub fn init_plan(file_exists: bool, answer: Option<&str>) -> (r: InitAction)
    ensures
        r is Write <==> (!file_exists || (answer matches Some(a) && affirmative_spec(
            a@,
        ))),
{
    if !file_exists {
        InitAction::Write
    } else {
        match answer {
            Option::Some(a) => {
                if is_affirmative(a) {
                    InitAction::Write
                } else {
                    InitAction::Skip
                }
            },
            Option::None => InitAction::Skip,
        }
    }
}

pub open spec fn is_digit(c: char) -> bool {
    48 <= c as u32 <= 57
}

pub open spec fn digit_val(c: char) -> int {
    c as u32 - 48
}

pub open spec fn all_digits(s: Seq<char>) -> bool {
    forall|k: int| 0 <= k < s.len() ==> is_digit(s[k])
}

/// Value of a decimal digit string, most significant digit first.
pub open spec fn digits_val(s: Seq<char>) -> int
    decreases s.len(),
{
    if s.len() == 0 {
        0
    } else {
        digits_val(s.take(s.len() - 1)) * 10 + digit_val(s[s.len() - 1])
    }
}

/// The digit string an index answer must reduce to: trimmed, with one
/// optional leading `+` sign.
pub open spec fn index_digits(s: Seq<char>) -> Seq<char> {
    let t = trim_spec(s);
    if t.len() > 0 && t[0] == '+' {
        t.skip(1)
    } else {
        t
    }
}

/// How an interactive index answer is read: `Some` exactly for a (possibly
/// `+`-signed) decimal number that fits a `usize`.
pub open spec fn parse_index_spec(s: Seq<char>) -> Option<usize> {
    let u = index_digits(s);
    if u.len() > 0 && all_digits(u) && digits_val(u) <= usize::MAX {
        Some(digits_val(u) as usize)
    } else {
        None
    }
}

proof fn lemma_digits_val_nonneg(s: Seq<char>)
    requires
        all_digits(s),
    ensures
        digits_val(s) >= 0,
    decreases s.len(),
{
    if s.len() > 0 {
        assert(all_digits(s.take(s.len() - 1)));
        lemma_digits_val_nonneg(s.take(s.len() - 1));
    }
}

proof fn lemma_digits_val_prefix_le(s: Seq<char>, m: int)
    requires
        all_digits(s),
        0 <= m <= s.len(),
    ensures
        digits_val(s.take(m)) <= digits_val(s),
    decreases s.len() - m,
{
    if m < s.len() {
        lemma_digits_val_prefix_le(s, m + 1);
        let p = s.take(m + 1);
        assert(p.take(m) =~= s.take(m));
        assert(all_digits(s.take(m)));
        lemma_digits_val_nonneg(s.take(m));
        assert(digits_val(p) == digits_val(s.take(m)) * 10 + digit_val(s[m]));
        assert(is_digit(s[m]));
        assert(digits_val(s.take(m)) * 10 >= digits_val(s.take(m)));
    } else {
        assert(s.take(m) =~= s);
    }
}

/// Reads an interactive index answer.
pub fn parse_index(s: &str) -> (r: Option<usize>)
    ensures
        r == parse_index_spec(s@),
{
    let (a, b) = trim_bounds(s);
    if a >= b {
        proof {
            assert(trim_spec(s@) =~= Seq::<char>::empty());
        }
        return None;
    }
    let start: usize = if s.get_char(a) == '+' {
        a + 1
    } else {
        a
    };
    let ghost u = index_digits(s@);
    proof {
        assert(trim_spec(s@) == s@.subrange(a as int, b as int));
        assert(u =~= s@.subrange(start as int, b as int));
    }
    if start == b {
        return None;
    }
    let mut acc: usize = 0;
    let mut i: usize = start;
    while i < b
        invariant
            start <= i <= b <= s@.len(),
            u == index_digits(s@),
            u == s@.subrange(start as int, b as int),
            u.len() == b - start,
            forall|k: int| 0 <= k < i - start ==> is_digit(u[k]),
            acc == digits_val(u.take(i - start)),
        decreases b - i,
    {
        let c = s.get_char(i);
        proof {
            assert(u[i - start] == s@[i as int]);
        }
        if !(c >= '0' && c <= '9') {
            proof {
                assert(!is_digit(u[i - start]));
                assert(!all_digits(u));
            }
            return None;
        }
        let d: usize = (c as u32 - 48) as usize;
        let ghost prev = acc;
        if acc > (usize::MAX - d) / 10 {
            proof {
                let m = i - start;
                assert(u.take(m + 1).take(m) =~= u.take(m));
                assert(u.take(m + 1)[m] == u[m]);
                assert(digits_val(u.take(m + 1)) == prev * 10 + d);
                assert(prev >= (usize::MAX - d) / 10 + 1);
                assert(((usize::MAX - d) / 10 + 1) * 10 >= usize::MAX - d + 1) by (nonlinear_arith)
                    requires
                        d <= usize::MAX,
                ;
                assert(prev * 10 >= ((usize::MAX - d) / 10 + 1) * 10) by (nonlinear_arith)
                    requires
                        prev >= (usize::MAX - d) / 10 + 1,
                ;
                assert(digits_val(u.take(m + 1)) > usize::MAX);
                if all_digits(u) {
                    lemma_digits_val_prefix_le(u, m + 1);
                    assert(digits_val(u) > usize::MAX);
                }
            }
            return None;
        }
        proof {
            let m = i - start;
            assert(u.take(m + 1).take(m) =~= u.take(m));
            assert(u.take(m + 1)[m] == u[m]);
            assert(prev * 10 + d <= usize::MAX) by (nonlinear_arith)
                requires
                    prev <= (usize::MAX - d) / 10,
                    d <= usize::MAX,
            ;
        }
        acc = acc * 10 + d;
        i = i + 1;
    }
    proof {
        assert(u.take(b - start) =~= u);
        assert(all_digits(u));
    }
    Some(acc)
}

/// Why a selection was refused.
#[derive(Debug, PartialEq, Eq, Structural)]
pub enum SelectError {
    /// The typed index does not point into `build_targets`.
    IndexOutOfRange,
}

/// Sets the shared current target to `build_targets[index]`; an index past
/// the end leaves the document exactly as it was.
pub fn select(doc: &mut CacheJson, index: usize) -> (r: Result<(), SelectError>)
    ensures
        index < old(doc).build_targets.len() ==> {
            &&& r is Ok
            &&& final(doc).current_build_target == old(doc).build_targets@[index as int]
            &&& final(doc).workspace == old(doc).workspace
            &&& final(doc).build_targets == old(doc).build_targets
            &&& final(doc).builds == old(doc).builds
            &&& final(doc).runs == old(doc).runs
            &&& final(doc).configurations == old(doc).configurations
        },
        index >= old(doc).build_targets.len() ==> r == Err::<(), SelectError>(
            SelectError::IndexOutOfRange,
        ) && *final(doc) == *old(doc),
{
    if index < doc.build_targets.len() {
        doc.current_build_target = doc.build_targets[index].clone();
        Ok(())
    } else {
        Err(SelectError::IndexOutOfRange)
    }
}

} // verus!
