//! Character-level string helpers shared by the command, relay and skin code.

use vstd::prelude::*;

verus! {

/// The characters of `s`, in order.
pub fn chars_of(s: &str) -> (v: Vec<char>)
    ensures
        v@ == s@,
{
    let n = s.unicode_len();
    let mut v: Vec<char> = Vec::new();
    let mut i: usize = 0;
    while i < n
        invariant
            n == s@.len(),
            i <= n,
            v@ == s@.take(i as int),
        decreases n - i,
    {
        v.push(s.get_char(i));
        i = i + 1;
        assert(v@ =~= s@.take(i as int));
    }
    assert(s@.take(n as int) =~= s@);
    v
}

/// Character-wise equality of two strings.
pub fn str_eq(a: &str, b: &str) -> (r: bool)
    ensures
        r == (a@ == b@),
{
    let n = a.unicode_len();
    if n != b.unicode_len() {
        return false;
    }
    let mut i: usize = 0;
    while i < n
        invariant
            n == a@.len(),
            n == b@.len(),
            i <= n,
            forall|j: int| 0 <= j < i ==> a@[j] == b@[j],
        decreases n - i,
    {
        if a.get_char(i) != b.get_char(i) {
            return false;
        }
        i = i + 1;
    }
    assert(a@ =~= b@);
    true
}

/// `hay` holds `needle` as a contiguous run starting at `i`.
pub open spec fn occurs_at(hay: Seq<char>, needle: Seq<char>, i: int) -> bool {
    0 <= i && i + needle.len() <= hay.len() && hay.subrange(i, i + needle.len()) == needle
}

/// `hay` holds `needle` as a contiguous run somewhere (the empty needle
/// everywhere).
pub open spec fn has_substring(hay: Seq<char>, needle: Seq<char>) -> bool {
    exists|i: int| occurs_at(hay, needle, i)
}

/// `s` starts with `prefix`.
pub open spec fn has_prefix(s: Seq<char>, prefix: Seq<char>) -> bool {
    prefix.len() <= s.len() && s.take(prefix.len() as int) == prefix
}

fn occurs_at_exec(hay: &Vec<char>, needle: &Vec<char>, i: usize) -> (r: bool)
    requires
        i + needle@.len() <= hay@.len(),
    ensures
        r == occurs_at(hay@, needle@, i as int),
{
    proof {
        vstd::std_specs::vec::axiom_spec_len(hay);
    }
    let mut j: usize = 0;
    while j < needle.len()
        invariant
            i + needle@.len() <= hay@.len(),
            hay@.len() <= usize::MAX,
            j <= needle@.len(),
            forall|k: int| 0 <= k < j ==> hay@[i + k] == needle@[k],
        decreases needle@.len() - j,
    {
        if hay[i + j] != needle[j] {
            assert(hay@.subrange(i as int, i + needle@.len())[j as int] != needle@[j as int]);
            return false;
        }
        j = j + 1;
    }
    assert(hay@.subrange(i as int, i + needle@.len()) =~= needle@);
    true
}

/// Whether `hay` contains `needle` (`str::contains` with a string pattern).
pub fn str_contains(hay: &str, needle: &str) -> (r: bool)
    ensures
        r == has_substring(hay@, needle@),
{
    let h = chars_of(hay);
    let n = chars_of(needle);
    if n.len() > h.len() {
        assert forall|i: int| !occurs_at(hay@, needle@, i) by {}
        return false;
    }
    let last: usize = h.len() - n.len();
    let mut i: usize = 0;
    loop
        invariant
            h@ == hay@,
            n@ == needle@,
            last == h@.len() - n@.len(),
            i <= last,
            forall|k: int| 0 <= k < i ==> !occurs_at(hay@, needle@, k),
        ensures
            forall|k: int| 0 <= k <= last ==> !occurs_at(hay@, needle@, k),
        decreases last - i,
    {
        if occurs_at_exec(&h, &n, i) {
            return true;
        }
        if i == last {
            break;
        }
        i = i + 1;
    }
    assert forall|k: int| !occurs_at(hay@, needle@, k) by {
        if 0 <= k && k + needle@.len() <= hay@.len() {
            assert(k <= last);
        }
    }
    false
}

/// Whether `s` starts with `prefix`.
pub fn str_starts_with(s: &str, prefix: &str) -> (r: bool)
    ensures
        r == has_prefix(s@, prefix@),
{
    let sc = chars_of(s);
    let pc = chars_of(prefix);
    if pc.len() > sc.len() {
        return false;
    }
    let mut j: usize = 0;
    while j < pc.len()
        invariant
            sc@ == s@,
            pc@ == prefix@,
            pc@.len() <= sc@.len(),
            j <= pc@.len(),
            forall|k: int| 0 <= k < j ==> sc@[k] == pc@[k],
        decreases pc@.len() - j,
    {
        if sc[j] != pc[j] {
            assert(s@.take(prefix@.len() as int)[j as int] != prefix@[j as int]);
            return false;
        }
        j = j + 1;
    }
    assert(s@.take(prefix@.len() as int) =~= prefix@);
    true
}

/// Name of what `str::to_lowercase` makes of a text (Unicode lowercase mapping).
pub uninterp spec fn unicode_lowercase(s: Seq<char>) -> Seq<char>;

/// `str::to_lowercase`.
///
/// Trusted: the result is the text named `unicode_lowercase(s)`, a function
/// of `s` alone (the documentation defines it by the Unicode Derived Core
/// Property Lowercase, with no locale). The mapping itself is not stated.
#[verifier::external_body]
pub(crate) fn to_lowercase(s: &str) -> (r: String)
    ensures
        r@ == unicode_lowercase(s@),
{
    s.to_lowercase()
}

/// Characters with the Unicode `White_Space` property, the ones
/// `char::is_whitespace` (and so `str::trim`) treats as white space: the
/// ASCII controls tab to carriage return, space, next line, no-break space,
/// ogham space mark, the general-punctuation spaces U+2000 to U+200A, line
/// and paragraph separators, narrow no-break and medium mathematical spaces,
/// and ideographic space.
pub open spec fn white_space(c: char) -> bool {
    let u = c as u32;
    ||| 0x9 <= u <= 0xD
    ||| u == 0x20
    ||| u == 0x85
    ||| u == 0xA0
    ||| u == 0x1680
    ||| 0x2000 <= u <= 0x200A
    ||| u == 0x2028
    ||| u == 0x2029
    ||| u == 0x202F
    ||| u == 0x205F
    ||| u == 0x3000
}

/// Whether `c` is white space.
fn is_white_space(c: char) -> (r: bool)
    ensures
        r == white_space(c),
{
    let u = c as u32;
    (0x9 <= u && u <= 0xD) || u == 0x20 || u == 0x85 || u == 0xA0 || u == 0x1680 || (0x2000 <= u
        && u <= 0x200A) || u == 0x2028 || u == 0x2029 || u == 0x202F || u == 0x205F || u == 0x3000
}

/// Index of the first non-white-space character at or after `i` (or the length).
pub open spec fn trim_start_from(s: Seq<char>, i: int) -> int
    decreases s.len() - i,
{
    if i < 0 || i >= s.len() {
        s.len() as int
    } else if white_space(s[i]) {
        trim_start_from(s, i + 1)
    } else {
        i
    }
}

/// One past the last non-white-space character before `e` (or `lo` when there is none from `lo`).
pub open spec fn trim_end_from(s: Seq<char>, lo: int, e: int) -> int
    decreases e - lo,
{
    if e <= lo {
        lo
    } else if white_space(s[e - 1]) {
        trim_end_from(s, lo, e - 1)
    } else {
        e
    }
}

/// `s` with leading and trailing white space removed (`str::trim`).
pub open spec fn trimmed(s: Seq<char>) -> Seq<char> {
    let b = trim_start_from(s, 0);
    s.subrange(b, trim_end_from(s, b, s.len() as int))
}

proof fn lemma_trim_start_bounds(s: Seq<char>, i: int)
    requires
        0 <= i <= s.len(),
    ensures
        i <= trim_start_from(s, i) <= s.len(),
    decreases s.len() - i,
{
    if i < s.len() && white_space(s[i]) {
        lemma_trim_start_bounds(s, i + 1);
    }
}

proof fn lemma_trim_end_bounds(s: Seq<char>, lo: int, e: int)
    requires
        lo <= e,
    ensures
        lo <= trim_end_from(s, lo, e) <= e,
    decreases e - lo,
{
    if e > lo && white_space(s[e - 1]) {
        lemma_trim_end_bounds(s, lo, e - 1);
    }
}

/// `s` with leading and trailing white space removed, like `str::trim`.
pub fn trim(s: &str) -> (r: String)
    ensures
        r@ == trimmed(s@),
{
    let c = chars_of(s);
    let n = c.len();
    let mut b: usize = 0;
    while b < n && is_white_space(c[b])
        invariant
            c@ == s@,
            n == s@.len(),
            b <= n,
            trim_start_from(s@, 0) == trim_start_from(s@, b as int),
        decreases n - b,
    {
        b = b + 1;
    }
    let mut e: usize = n;
    while e > b && is_white_space(c[e - 1])
        invariant
            c@ == s@,
            n == s@.len(),
            b <= e <= n,
            trim_end_from(s@, b as int, n as int) == trim_end_from(s@, b as int, e as int),
        decreases e - b,
    {
        e = e - 1;
    }
    proof {
        lemma_trim_start_bounds(s@, 0);
        lemma_trim_end_bounds(s@, b as int, n as int);
    }
    String::from_str(s.substring_char(b, e))
}

/// `parts` joined with `sep` between consecutive parts (`[T]::join`).
pub open spec fn joined(parts: Seq<Seq<char>>, sep: Seq<char>) -> Seq<char>
    decreases parts.len(),
{
    if parts.len() == 0 {
        Seq::empty()
    } else if parts.len() == 1 {
        parts[0]
    } else {
        joined(parts.drop_last(), sep) + sep + parts.last()
    }
}

/// The texts of a list of strings.
pub open spec fn texts(v: Seq<String>) -> Seq<Seq<char>> {
    v.map_values(|s: String| s@)
}

/// `args[from..]` joined with `sep`.
pub fn join_from(args: &Vec<String>, from: usize, sep: &str) -> (r: String)
    requires
        from <= args@.len(),
    ensures
        r@ == joined(texts(args@.skip(from as int)), sep@),
{
    let mut r = String::new();
    let mut i: usize = from;
    let ghost all = texts(args@.skip(from as int));
    while i < args.len()
        invariant
            from <= i <= args@.len(),
            all == texts(args@.skip(from as int)),
            r@ == joined(all.take(i - from), sep@),
        decreases args@.len() - i,
    {
        let ghost before = all.take(i - from);
        assert(all.take(i + 1 - from).drop_last() =~= before);
        assert(all[i - from] == args@[i as int]@);
        if i == from {
            assert(before.len() == 0);
            r.append(args[i].as_str());
            assert(r@ =~= joined(all.take(i + 1 - from), sep@));
        } else {
            r.append(sep);
            r.append(args[i].as_str());
        }
        i = i + 1;
    }
    assert(all.take(i - from) =~= all);
    r
}

} // verus!
