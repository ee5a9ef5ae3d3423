//! Case-insensitive substring matching over character sequences, the
//! semantics of the store's search filter.

use vstd::prelude::*;

verus! {

/// The code point of a character with an upper-case ASCII letter folded to
/// its lower-case counterpart; every other character is left as it is.
pub open spec fn fold_char(c: char) -> int {
    if 65 <= c as u32 <= 90 {
        c as u32 + 32
    } else {
        c as u32 as int
    }
}

/// Two characters are equal up to ASCII case.
pub open spec fn chars_eq_ci(a: char, b: char) -> bool {
    fold_char(a) == fold_char(b)
}

/// `needle` occurs in `hay` at offset `off`, comparing characters up to
/// ASCII case.
pub open spec fn matches_at(hay: Seq<char>, needle: Seq<char>, off: int) -> bool {
    forall|j: int| 0 <= j < needle.len() ==> chars_eq_ci(hay[off + j], needle[j])
}

/// `needle` occurs somewhere in `hay`, comparing characters up to ASCII
/// case. The empty needle occurs in every sequence.
pub open spec fn contains_ci(hay: Seq<char>, needle: Seq<char>) -> bool {
    exists|off: int| 0 <= off && off + needle.len() <= hay.len() && matches_at(hay, needle, off)
}

/// Decides whether two string slices hold the same characters.
pub fn str_eq(a: &str, b: &str) -> (r: bool)
    ensures
        r == (a@ == b@),
{
    let an = a.unicode_len();
    let bn = b.unicode_len();
    if an != bn {
        assert(a@ != b@);
        return false;
    }
    let mut i: usize = 0;
    while i < an
        invariant
            an == a@.len(),
            an == b@.len(),
            0 <= i <= an,
            forall|k: int| 0 <= k < i ==> a@[k] == b@[k],
        decreases an - i,
    {
        if a.get_char(i) != b.get_char(i) {
            assert(a@ != b@);
            return false;
        }
        i += 1;
    }
    assert(a@ =~= b@);
    true
}

/// Folds one character as `fold_char` describes.
fn fold_char_exec(c: char) -> (r: u32)
    ensures
        r == fold_char(c),
{
    let x = c as u32;
    if 65 <= x && x <= 90 {
        x + 32
    } else {
        x
    }
}

/// Decides whether `needle` occurs in `hay` at offset `off`, comparing
/// characters up to ASCII case.
fn str_matches_at(hay: &str, needle: &str, off: usize) -> (r: bool)
    requires
        off + needle@.len() <= hay@.len(),
        hay@.len() <= usize::MAX,
    ensures
        r == matches_at(hay@, needle@, off as int),
{
    let n = needle.unicode_len();
    let mut j: usize = 0;
    while j < n
        invariant
            n == needle@.len(),
            off + n <= hay@.len(),
            hay@.len() <= usize::MAX,
            0 <= j <= n,
            forall|k: int| 0 <= k < j ==> chars_eq_ci(hay@[off + k], needle@[k]),
        decreases n - j,
    {
        let hc = fold_char_exec(hay.get_char(off + j));
        let nc = fold_char_exec(needle.get_char(j));
        if hc != nc {
            return false;
        }
        j += 1;
    }
    true
}

/// Decides whether `needle` occurs somewhere in `hay`, comparing characters
/// up to ASCII case.
pub fn str_contains_ci(hay: &str, needle: &str) -> (r: bool)
    ensures
        r == contains_ci(hay@, needle@),
{
    let hn = hay.unicode_len();
    let nn = needle.unicode_len();
    if nn > hn {
        assert(!contains_ci(hay@, needle@));
        return false;
    }
    let last = hn - nn;
    let mut off: usize = 0;
    while off <= last
        invariant
            hn == hay@.len(),
            nn == needle@.len(),
            nn <= hn,
            last == hn - nn,
            0 <= off <= last + 1,
            forall|o: int| 0 <= o < off ==> !matches_at(hay@, needle@, o),
        decreases last + 1 - off,
    {
        if str_matches_at(hay, needle, off) {
            return true;
        }
        off += 1;
    }
    false
}

/// A whitespace character, as header-value trimming understands it.
pub open spec fn is_ws(c: char) -> bool {
    c == ' ' || c == '\t' || c == '\r' || c == '\n'
}

/// The characters before the first comma, or the whole sequence where it
/// has none.
pub open spec fn before_comma(s: Seq<char>) -> Seq<char>
    decreases s.len(),
{
    if s.len() == 0 {
        s
    } else if s[0] == ',' {
        Seq::empty()
    } else {
        seq![s[0]] + before_comma(s.drop_first())
    }
}

/// `before_comma` is the prefix up to the first comma, which is what a
/// scan for the first comma finds.
pub proof fn lemma_before_comma_is(s: Seq<char>, k: int)
    requires
        0 <= k <= s.len(),
        forall|m: int| 0 <= m < k ==> s[m] != ',',
        k < s.len() ==> s[k] == ',',
    ensures
        before_comma(s) == s.subrange(0, k),
    decreases s.len(),
{
    if s.len() == 0 {
        assert(before_comma(s) =~= s.subrange(0, k));
    } else if s[0] == ',' {
        assert(k == 0);
        assert(before_comma(s) =~= s.subrange(0, 0));
    } else {
        let rest = s.drop_first();
        assert(k > 0);
        assert(forall|m: int| 0 <= m < k - 1 ==> #[trigger] rest[m] == s[m + 1]);
        lemma_before_comma_is(rest, k - 1);
        assert(before_comma(s) =~= s.subrange(0, k));
    }
}

/// The sequence with its leading whitespace dropped.
pub open spec fn trim_front(s: Seq<char>) -> Seq<char>
    decreases s.len(),
{
    if s.len() == 0 {
        s
    } else if is_ws(s[0]) {
        trim_front(s.drop_first())
    } else {
        s
    }
}

/// The sequence with its trailing whitespace dropped.
pub open spec fn trim_back(s: Seq<char>) -> Seq<char>
    decreases s.len(),
{
    if s.len() == 0 {
        s
    } else if is_ws(s.last()) {
        trim_back(s.drop_last())
    } else {
        s
    }
}

/// The sequence with whitespace dropped at both ends.
pub open spec fn trimmed(s: Seq<char>) -> Seq<char> {
    trim_back(trim_front(s))
}

/// `trim_front` is the suffix from the first non-whitespace character on.
pub proof fn lemma_trim_front_is(s: Seq<char>, a: int)
    requires
        0 <= a <= s.len(),
        forall|m: int| 0 <= m < a ==> is_ws(#[trigger] s[m]),
        a < s.len() ==> !is_ws(s[a]),
    ensures
        trim_front(s) == s.subrange(a, s.len() as int),
    decreases s.len(),
{
    if s.len() == 0 {
        assert(trim_front(s) =~= s.subrange(a, s.len() as int));
    } else if a == 0 {
        assert(!is_ws(s[0]));
        assert(trim_front(s) =~= s.subrange(0, s.len() as int));
    } else {
        let rest = s.drop_first();
        assert(is_ws(s[0]));
        assert(forall|m: int| 0 <= m < a - 1 ==> #[trigger] rest[m] == s[m + 1]);
        lemma_trim_front_is(rest, a - 1);
        assert(trim_front(s) =~= s.subrange(a, s.len() as int));
    }
}

/// `trim_back` is the prefix up to the last non-whitespace character.
pub proof fn lemma_trim_back_is(s: Seq<char>, b: int)
    requires
        0 <= b <= s.len(),
        forall|m: int| b <= m < s.len() ==> is_ws(#[trigger] s[m]),
        b > 0 ==> !is_ws(s[b - 1]),
    ensures
        trim_back(s) == s.subrange(0, b),
    decreases s.len(),
{
    if s.len() == 0 {
        assert(trim_back(s) =~= s.subrange(0, b));
    } else if b == s.len() {
        assert(!is_ws(s.last()));
        assert(trim_back(s) =~= s.subrange(0, b));
    } else {
        let rest = s.drop_last();
        assert(is_ws(s.last()));
        assert(forall|m: int| 0 <= m < rest.len() ==> #[trigger] rest[m] == s[m]);
        lemma_trim_back_is(rest, b);
        assert(trim_back(s) =~= s.subrange(0, b));
    }
}

/// Tests one character for whitespace as `is_ws` describes.
fn is_ws_exec(c: char) -> (r: bool)
    ensures
        r == is_ws(c),
{
    c == ' ' || c == '\t' || c == '\r' || c == '\n'
}

/// Extracts the first comma-separated segment of `s` and drops the
/// whitespace around it.
pub fn first_segment_trimmed(s: &str) -> (r: String)
    ensures
        r@ == trimmed(before_comma(s@)),
{
    let n = s.unicode_len();
    let mut k: usize = 0;
    loop
        invariant
            n == s@.len(),
            0 <= k <= n,
            forall|m: int| 0 <= m < k ==> s@[m] != ',',
        ensures
            0 <= k <= n,
            forall|m: int| 0 <= m < k ==> s@[m] != ',',
            k < n ==> s@[k as int] == ',',
        decreases n - k,
    {
        if k == n {
            break ;
        }
        if s.get_char(k) == ',' {
            break ;
        }
        k += 1;
    }
    let mut a: usize = 0;
    loop
        invariant
            n == s@.len(),
            0 <= a <= k <= n,
            forall|m: int| 0 <= m < a ==> is_ws(#[trigger] s@[m]),
        ensures
            0 <= a <= k,
            forall|m: int| 0 <= m < a ==> is_ws(#[trigger] s@[m]),
            a < k ==> !is_ws(s@[a as int]),
        decreases k - a,
    {
        if a == k {
            break ;
        }
        if !is_ws_exec(s.get_char(a)) {
            break ;
        }
        a += 1;
    }
    let mut b: usize = k;
    loop
        invariant
            n == s@.len(),
            a <= b <= k <= n,
            forall|m: int| b <= m < k ==> is_ws(#[trigger] s@[m]),
        ensures
            a <= b <= k,
            forall|m: int| b <= m < k ==> is_ws(#[trigger] s@[m]),
            b > a ==> !is_ws(s@[b - 1]),
        decreases b - a,
    {
        if b == a {
            break ;
        }
        if !is_ws_exec(s.get_char(b - 1)) {
            break ;
        }
        b -= 1;
    }
    proof {
        let seg = s@.subrange(0, k as int);
        lemma_before_comma_is(s@, k as int);
        assert(forall|m: int| 0 <= m < seg.len() ==> #[trigger] seg[m] == s@[m]);
        lemma_trim_front_is(seg, a as int);
        let tf = seg.subrange(a as int, k as int);
        assert(forall|m: int| 0 <= m < tf.len() ==> #[trigger] tf[m] == s@[a + m]);
        if b > a {
            assert(!is_ws(tf[b - a - 1]));
        }
        lemma_trim_back_is(tf, b as int - a as int);
        assert(trimmed(before_comma(s@)) =~= s@.subrange(a as int, b as int));
    }
    let seg = s.substring_char(a, b);
    seg.to_owned()
}

} // verus!
