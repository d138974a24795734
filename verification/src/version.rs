use vstd::prelude::*;

verus! {

/// A semantic version: a `major.minor.patch` triple of non-negative integers
/// with an optional pre-release/build metadata tag, the text after the first
/// `-` of the version string.
#[derive(Debug)]
pub struct SemanticVersion {
    pub major: u64,
    pub minor: u64,
    pub patch: u64,
    pub tag: Option<String>,
}

impl SemanticVersion {
    /// A well-formed version carries a tag only if it is a non-empty run of
    /// tag characters.
    pub open spec fn wf(self) -> bool {
        match self.tag {
            Option::Some(t) => is_tag(t@),
            Option::None => true,
        }
    }
}

pub open spec fn is_digit(c: char) -> bool {
    ('0' as u32) <= (c as u32) && (c as u32) <= ('9' as u32)
}

pub open spec fn digit_val(c: char) -> int {
    (c as u32) - ('0' as u32)
}

/// The number denoted by a run of decimal digits, most significant first.
pub open spec fn digits_value(s: Seq<char>) -> int
    decreases s.len(),
{
    if s.len() == 0 {
        0
    } else {
        digits_value(s.drop_last()) * 10 + digit_val(s.last())
    }
}

pub open spec fn all_digits(s: Seq<char>) -> bool {
    forall|i: int| 0 <= i < s.len() ==> is_digit(s[i])
}

/// A numeric component of a version: a non-empty run of digits, no leading
/// zero, and a value that fits in `u64`.
pub open spec fn is_number(s: Seq<char>) -> bool {
    &&& s.len() > 0
    &&& all_digits(s)
    &&& (s[0] != '0' || s.len() == 1)
    &&& digits_value(s) <= u64::MAX
}

pub open spec fn is_tag_char(c: char) -> bool {
    ||| is_digit(c)
    ||| ('a' as u32) <= (c as u32) && (c as u32) <= ('z' as u32)
    ||| ('A' as u32) <= (c as u32) && (c as u32) <= ('Z' as u32)
    ||| c == '.'
    ||| c == '-'
    ||| c == '+'
}

/// A pre-release/build metadata tag: non-empty, made of ASCII alphanumerics,
/// dots, hyphens and plus signs.
pub open spec fn is_tag(s: Seq<char>) -> bool {
    s.len() > 0 && forall|i: int| 0 <= i < s.len() ==> is_tag_char(s[i])
}

/// The text denotes the triple `major.minor.patch` with dots at `i` and `j`.
pub open spec fn triple_matches_at(s: Seq<char>, major: int, minor: int, patch: int, i: int, j: int) -> bool {
    &&& 0 <= i < j < s.len()
    &&& s[i] == '.'
    &&& s[j] == '.'
    &&& is_number(s.subrange(0, i))
    &&& major == digits_value(s.subrange(0, i))
    &&& is_number(s.subrange(i + 1, j))
    &&& minor == digits_value(s.subrange(i + 1, j))
    &&& is_number(s.subrange(j + 1, s.len() as int))
    &&& patch == digits_value(s.subrange(j + 1, s.len() as int))
}

pub open spec fn triple_matches(s: Seq<char>, major: int, minor: int, patch: int) -> bool {
    exists|i: int, j: int| triple_matches_at(s, major, minor, patch, i, j)
}

/// The text denotes exactly the version `v`: a bare triple when `v` has no
/// tag, and a triple followed by `-` and the tag when it has one.
pub open spec fn version_matches(s: Seq<char>, v: SemanticVersion) -> bool {
    match v.tag {
        Option::None => triple_matches(s, v.major as int, v.minor as int, v.patch as int),
        Option::Some(t) => exists|k: int|
            {
                &&& 0 <= k < s.len()
                &&& s[k] == '-'
                &&& triple_matches(s.subrange(0, k), v.major as int, v.minor as int, v.patch as int)
                &&& is_tag(s.subrange(k + 1, s.len() as int))
                &&& t@ == s.subrange(k + 1, s.len() as int)
            },
    }
}

proof fn lemma_digits_value_nonneg(s: Seq<char>)
    requires
        all_digits(s),
    ensures
        digits_value(s) >= 0,
    decreases s.len(),
{
    if s.len() > 0 {
        assert(all_digits(s.drop_last()));
        lemma_digits_value_nonneg(s.drop_last());
    }
}

/// Extending a run of digits on the right can only grow its value.
proof fn lemma_digits_value_prefix_le(s: Seq<char>, i: int)
    requires
        all_digits(s),
        0 <= i <= s.len(),
    ensures
        digits_value(s.subrange(0, i)) <= digits_value(s),
    decreases s.len(),
{
    if i == s.len() {
        assert(s.subrange(0, i) =~= s);
    } else {
        let t = s.drop_last();
        assert(all_digits(t));
        assert(s.subrange(0, i) =~= t.subrange(0, i));
        lemma_digits_value_prefix_le(t, i);
        lemma_digits_value_nonneg(t);
    }
}

fn digit_of(c: char) -> (r: Option<u64>)
    ensures
        r matches Option::Some(d) ==> is_digit(c) && d == digit_val(c),
        r is None ==> !is_digit(c),
{
    let u = c as u32;
    if ('0' as u32) <= u && u <= ('9' as u32) {
        Option::Some((u - ('0' as u32)) as u64)
    } else {
        Option::None
    }
}

/// Parses a numeric version component: exactly the strings accepted by
/// `is_number`, yielding their value.
pub fn parse_number(s: &str) -> (r: Option<u64>)
    ensures
        r matches Option::Some(n) ==> is_number(s@) && n == digits_value(s@),
        r is None ==> !is_number(s@),
{
    let len = s.unicode_len();
    if len == 0 {
        return Option::None;
    }
    // Reject a leading zero on a multi-digit component.
    if len > 1 && s.get_char(0) == '0' {
        return Option::None;
    }
    // First pass: every character must be a digit.
    let mut i: usize = 0;
    while i < len
        invariant
            0 <= i <= len,
            len == s@.len(),
            forall|j: int| 0 <= j < i ==> is_digit(s@[j]),
        decreases len - i,
    {
        let c = s.get_char(i);
        if digit_of(c).is_none() {
            return Option::None;
        }
        i = i + 1;
    }
    assert(all_digits(s@));
    // Second pass: accumulate the value, watching for overflow.
    let mut acc: u64 = 0;
    let mut k: usize = 0;
    while k < len
        invariant
            0 <= k <= len,
            len == s@.len(),
            all_digits(s@),
            acc == digits_value(s@.subrange(0, k as int)),
        decreases len - k,
    {
        let c = s.get_char(k);
        let d = match digit_of(c) {
            Option::Some(d) => d,
            Option::None => {
                return Option::None;
            },
        };
        let wide: u128 = (acc as u128) * 10 + (d as u128);
        proof {
            assert(s@.subrange(0, k + 1).drop_last() =~= s@.subrange(0, k as int));
            assert(s@.subrange(0, k + 1).last() == s@[k as int]);
            assert(digits_value(s@.subrange(0, k + 1)) == acc * 10 + d);
        }
        if wide > (u64::MAX as u128) {
            proof {
                lemma_digits_value_prefix_le(s@, k + 1);
            }
            return Option::None;
        }
        acc = wide as u64;
        k = k + 1;
    }
    proof {
        assert(s@.subrange(0, len as int) =~= s@);
    }
    Option::Some(acc)
}

/// The index of the first occurrence of `c` in `s` at or after `from`.
fn find_char(s: &str, from: usize, c: char) -> (r: Option<usize>)
    requires
        from <= s@.len(),
    ensures
        r matches Option::Some(i) ==> from <= i < s@.len() && s@[i as int] == c && forall|j: int|
            from <= j < i ==> s@[j] != c,
        r is None ==> forall|j: int| from <= j < s@.len() ==> s@[j] != c,
{
    let len = s.unicode_len();
    let mut i: usize = from;
    while i < len
        invariant
            from <= i <= len,
            len == s@.len(),
            forall|j: int| from <= j < i ==> s@[j] != c,
        decreases len - i,
    {
        if s.get_char(i) == c {
            return Option::Some(i);
        }
        i = i + 1;
    }
    Option::None
}

/// A character that may appear in a bare `major.minor.patch` triple.
pub open spec fn is_core_char(c: char) -> bool {
    is_digit(c) || c == '.'
}

/// Every character of a text that denotes a triple is a digit or a dot.
proof fn lemma_triple_chars(s: Seq<char>, major: int, minor: int, patch: int, i: int, j: int)
    requires
        triple_matches_at(s, major, minor, patch, i, j),
    ensures
        forall|l: int| 0 <= l < s.len() ==> is_core_char(s[l]),
{
    assert forall|l: int| 0 <= l < s.len() implies is_core_char(s[l]) by {
        if l < i {
            assert(s.subrange(0, i)[l] == s[l]);
        } else if l == i {
        } else if l < j {
            assert(s.subrange(i + 1, j)[l - (i + 1)] == s[l]);
        } else if l == j {
        } else {
            assert(s.subrange(j + 1, s.len() as int)[l - (j + 1)] == s[l]);
        }
    }
}

/// In a text that denotes a triple, the two dots are the first two dots of
/// the text: any matching split uses the same indices.
proof fn lemma_triple_dots_forced(s: Seq<char>, major: int, minor: int, patch: int, i: int, j: int, i0: int, j0: int)
    requires
        triple_matches_at(s, major, minor, patch, i, j),
        0 <= i0 < s.len(),
        s[i0] == '.',
        forall|l: int| 0 <= l < i0 ==> s[l] != '.',
        i0 < j0 < s.len(),
        s[j0] == '.',
        forall|l: int| i0 + 1 <= l < j0 ==> s[l] != '.',
    ensures
        i == i0,
        j == j0,
{
    // The first component is all digits, so the first dot cannot lie inside it.
    if i < i0 {
        assert(s[i] != '.');
    }
    if i0 < i {
        assert(s.subrange(0, i)[i0] == s[i0]);
        assert(is_digit(s[i0]));
        assert(!is_digit('.'));
    }
    assert(i == i0);
    if j < j0 {
        assert(s[j] != '.');
    }
    if j0 < j {
        assert(s.subrange(i + 1, j)[j0 - (i + 1)] == s[j0]);
        assert(is_digit(s[j0]));
        assert(!is_digit('.'));
    }
    assert(j == j0);
}

/// Parses a bare `major.minor.patch` triple: exactly the strings matched by
/// `triple_matches`, yielding its three components.
pub fn parse_triple(s: &str) -> (r: Option<(u64, u64, u64)>)
    ensures
        r matches Option::Some(t) ==> triple_matches(s@, t.0 as int, t.1 as int, t.2 as int),
        r is None ==> forall|major: int, minor: int, patch: int| !triple_matches(s@, major, minor, patch),
{
    let len = s.unicode_len();
    let i = match find_char(s, 0, '.') {
        Option::Some(i) => i,
        Option::None => {
            proof {
                assert forall|major: int, minor: int, patch: int| !triple_matches(s@, major, minor, patch) by {
                    if exists|i0: int, j0: int| triple_matches_at(s@, major, minor, patch, i0, j0) {
                        let (i0, j0) = choose|i0: int, j0: int| triple_matches_at(s@, major, minor, patch, i0, j0);
                        assert(s@[i0] == '.');
                    }
                }
            }
            return Option::None;
        },
    };
    let j = match find_char(s, i + 1, '.') {
        Option::Some(j) => j,
        Option::None => {
            proof {
                assert forall|major: int, minor: int, patch: int| !triple_matches(s@, major, minor, patch) by {
                    if exists|i0: int, j0: int| triple_matches_at(s@, major, minor, patch, i0, j0) {
                        let (i0, j0) = choose|i0: int, j0: int| triple_matches_at(s@, major, minor, patch, i0, j0);
                        // i0 is forced onto the first dot, so j0 would be a dot after it.
                        if i0 > i {
                            assert(s@.subrange(0, i0)[i as int] == s@[i as int]);
                            assert(!is_digit('.'));
                        }
                        assert(i0 == i);
                        assert(s@[j0] == '.');
                    }
                }
            }
            return Option::None;
        },
    };
    let major = parse_number(s.substring_char(0, i));
    let minor = parse_number(s.substring_char(i + 1, j));
    let patch = parse_number(s.substring_char(j + 1, len));
    proof {
        assert forall|major0: int, minor0: int, patch0: int, i0: int, j0: int|
            triple_matches_at(s@, major0, minor0, patch0, i0, j0) implies i0 == i && j0 == j by {
            lemma_triple_dots_forced(s@, major0, minor0, patch0, i0, j0, i as int, j as int);
        }
    }
    match (major, minor, patch) {
        (Option::Some(major), Option::Some(minor), Option::Some(patch)) => {
            proof {
                assert(triple_matches_at(s@, major as int, minor as int, patch as int, i as int, j as int));
            }
            Option::Some((major, minor, patch))
        },
        _ => {
            proof {
                assert forall|major0: int, minor0: int, patch0: int| !triple_matches(s@, major0, minor0, patch0) by {
                    if exists|i0: int, j0: int| triple_matches_at(s@, major0, minor0, patch0, i0, j0) {
                        let (i0, j0) = choose|i0: int, j0: int| triple_matches_at(s@, major0, minor0, patch0, i0, j0);
                    }
                }
            }
            Option::None
        },
    }
}

/// A text that denotes a triple holds no hyphen.
proof fn lemma_triple_has_no_dash(s: Seq<char>, major: int, minor: int, patch: int, l: int)
    requires
        triple_matches(s, major, minor, patch),
        0 <= l < s.len(),
    ensures
        s[l] != '-',
{
    let (i0, j0) = choose|i0: int, j0: int| triple_matches_at(s, major, minor, patch, i0, j0);
    lemma_triple_chars(s, major, minor, patch, i0, j0);
    assert(!is_digit('-'));
}

/// In a text that denotes a tagged version, the hyphen before the tag is the
/// first hyphen of the text.
proof fn lemma_dash_forced(s: Seq<char>, v: SemanticVersion, k: int, k0: int)
    requires
        v.tag is Some,
        0 <= k0 < s.len(),
        s[k0] == '-',
        triple_matches(s.subrange(0, k0), v.major as int, v.minor as int, v.patch as int),
        0 <= k < s.len(),
        s[k] == '-',
        forall|l: int| 0 <= l < k ==> s[l] != '-',
    ensures
        k0 == k,
{
    if k < k0 {
        assert(s.subrange(0, k0)[k] == s[k]);
        lemma_triple_has_no_dash(s.subrange(0, k0), v.major as int, v.minor as int, v.patch as int, k);
    }
}

/// Checks that the text is a well-formed tag.
pub fn check_tag(s: &str) -> (r: bool)
    ensures
        r == is_tag(s@),
{
    let len = s.unicode_len();
    if len == 0 {
        return false;
    }
    let mut i: usize = 0;
    while i < len
        invariant
            0 <= i <= len,
            len == s@.len(),
            len > 0,
            forall|j: int| 0 <= j < i ==> is_tag_char(s@[j]),
        decreases len - i,
    {
        let c = s.get_char(i);
        let u = c as u32;
        let ok = (('0' as u32) <= u && u <= ('9' as u32)) || (('a' as u32) <= u && u <= ('z' as u32))
            || (('A' as u32) <= u && u <= ('Z' as u32)) || c == '.' || c == '-' || c == '+';
        if !ok {
            assert(!is_tag_char(s@[i as int]));
            return false;
        }
        i = i + 1;
    }
    true
}

/// Parses a semantic version string: `major.minor.patch`, optionally followed
/// by `-` and a pre-release/build metadata tag. Returns `Some` exactly on the
/// strings that denote a version, and then the version they denote.
pub fn parse_version(s: &str) -> (r: Option<SemanticVersion>)
    ensures
        r matches Option::Some(v) ==> version_matches(s@, v) && v.wf(),
        r is None ==> forall|v: SemanticVersion| !version_matches(s@, v),
{
    let len = s.unicode_len();
    match find_char(s, 0, '-') {
        Option::None => {
            // No tag part: the whole text must be a bare triple.
            match parse_triple(s) {
                Option::Some((major, minor, patch)) => {
                    let v = SemanticVersion { major, minor, patch, tag: Option::None };
                    assert(version_matches(s@, v));
                    Option::Some(v)
                },
                Option::None => {
                    proof {
                        assert forall|v: SemanticVersion| !version_matches(s@, v) by {
                            if v.tag is Some && version_matches(s@, v) {
                                let k0 = choose|k0: int|
                                    {
                                        &&& 0 <= k0 < s@.len()
                                        &&& s@[k0] == '-'
                                        &&& triple_matches(s@.subrange(0, k0), v.major as int, v.minor as int, v.patch as int)
                                        &&& is_tag(s@.subrange(k0 + 1, s@.len() as int))
                                        &&& v.tag->0@ == s@.subrange(k0 + 1, s@.len() as int)
                                    };
                                assert(s@[k0] == '-');
                            }
                        }
                    }
                    Option::None
                },
            }
        },
        Option::Some(k) => {
            // The version core ends at the first hyphen; the tag follows it.
            let core = s.substring_char(0, k);
            let tag_part = s.substring_char(k + 1, len);
            let triple = parse_triple(core);
            let tag_ok = check_tag(tag_part);
            proof {
                // A bare triple cannot contain the hyphen at k.
                assert forall|v: SemanticVersion| v.tag is None implies !version_matches(s@, v) by {
                    if version_matches(s@, v) {
                        lemma_triple_has_no_dash(s@, v.major as int, v.minor as int, v.patch as int, k as int);
                    }
                }
                // Any tagged match must split exactly at k.
                assert forall|v: SemanticVersion, k0: int|
                    v.tag is Some && 0 <= k0 < s@.len() && s@[k0] == '-' && triple_matches(
                        s@.subrange(0, k0),
                        v.major as int,
                        v.minor as int,
                        v.patch as int,
                    ) implies k0 == k by {
                    lemma_dash_forced(s@, v, k as int, k0);
                }
            }
            match triple {
                Option::Some((major, minor, patch)) => {
                    if tag_ok {
                        let tag = String::from_str(tag_part);
                        let v = SemanticVersion { major, minor, patch, tag: Option::Some(tag) };
                        proof {
                            assert(s@.subrange(0, k as int) == core@);
                            assert(v.tag->0@ == s@.subrange(k + 1, s@.len() as int));
                            assert(version_matches(s@, v));
                        }
                        Option::Some(v)
                    } else {
                        proof {
                            assert forall|v: SemanticVersion| !version_matches(s@, v) by {
                                if v.tag is Some && version_matches(s@, v) {
                                    let k0 = choose|k0: int|
                                        {
                                            &&& 0 <= k0 < s@.len()
                                            &&& s@[k0] == '-'
                                            &&& triple_matches(s@.subrange(0, k0), v.major as int, v.minor as int, v.patch as int)
                                            &&& is_tag(s@.subrange(k0 + 1, s@.len() as int))
                                            &&& v.tag->0@ == s@.subrange(k0 + 1, s@.len() as int)
                                        };
                                    assert(k0 == k);
                                    assert(tag_part@ == s@.subrange(k0 + 1, s@.len() as int));
                                }
                            }
                        }
                        Option::None
                    }
                },
                Option::None => {
                    proof {
                        assert forall|v: SemanticVersion| !version_matches(s@, v) by {
                            if v.tag is Some && version_matches(s@, v) {
                                let k0 = choose|k0: int|
                                    {
                                        &&& 0 <= k0 < s@.len()
                                        &&& s@[k0] == '-'
                                        &&& triple_matches(s@.subrange(0, k0), v.major as int, v.minor as int, v.patch as int)
                                        &&& is_tag(s@.subrange(k0 + 1, s@.len() as int))
                                        &&& v.tag->0@ == s@.subrange(k0 + 1, s@.len() as int)
                                    };
                                assert(k0 == k);
                                assert(core@ == s@.subrange(0, k0));
                            }
                        }
                    }
                    Option::None
                },
            }
        },
    }
}

/// Lexicographic order on character sequences, by scalar value.
pub open spec fn lex_lt(x: Seq<char>, y: Seq<char>) -> bool
    decreases x.len(),
{
    if y.len() == 0 {
        false
    } else if x.len() == 0 {
        true
    } else if (x[0] as u32) < (y[0] as u32) {
        true
    } else if (x[0] as u32) > (y[0] as u32) {
        false
    } else {
        lex_lt(x.drop_first(), y.drop_first())
    }
}

/// The lexicographic order is a strict total order: of `x < y`, `y < x` and
/// `x == y`, exactly one holds.
pub proof fn lemma_lex_lt_trichotomy(x: Seq<char>, y: Seq<char>)
    ensures
        lex_lt(x, y) || lex_lt(y, x) || x == y,
        lex_lt(x, y) ==> !lex_lt(y, x),
        lex_lt(x, y) ==> x != y,
    decreases x.len(),
{
    if y.len() == 0 && x.len() == 0 {
        assert(x =~= y);
    } else if y.len() == 0 || x.len() == 0 {
    } else if (x[0] as u32) != (y[0] as u32) {
        assert(x[0] != y[0]);
    } else {
        vstd::utf8::char_u32_cast(x[0], x[0] as u32);
        vstd::utf8::char_u32_cast(y[0], y[0] as u32);
        assert(x[0] == y[0]);
        lemma_lex_lt_trichotomy(x.drop_first(), y.drop_first());
        if x.drop_first() == y.drop_first() {
            assert forall|i: int| 0 <= i < x.len() implies x[i] == y[i] by {
                if i > 0 {
                    assert(x[i] == x.drop_first()[i - 1]);
                    assert(y[i] == y.drop_first()[i - 1]);
                }
            }
            assert(x =~= y);
        }
        if x == y {
            assert(x.drop_first() =~= y.drop_first());
        }
    }
}

/// If the first `i` characters agree, the order is decided by the rest.
proof fn lemma_lex_lt_skip(x: Seq<char>, y: Seq<char>, i: int)
    requires
        0 <= i <= x.len(),
        i <= y.len(),
        forall|j: int| 0 <= j < i ==> x[j] == y[j],
    ensures
        lex_lt(x, y) == lex_lt(x.skip(i), y.skip(i)),
    decreases i,
{
    if i > 0 {
        assert(x.len() > 0 && y.len() > 0);
        assert(x[0] == y[0]);
        lemma_lex_lt_skip(x.drop_first(), y.drop_first(), i - 1);
        assert(x.drop_first().skip(i - 1) =~= x.skip(i));
        assert(y.drop_first().skip(i - 1) =~= y.skip(i));
    } else {
        assert(x.skip(0) =~= x);
        assert(y.skip(0) =~= y);
    }
}

/// Lexicographic comparison of two texts.
fn str_lex_lt(x: &str, y: &str) -> (r: bool)
    ensures
        r == lex_lt(x@, y@),
{
    let xl = x.unicode_len();
    let yl = y.unicode_len();
    let mut i: usize = 0;
    loop
        invariant
            i <= xl,
            i <= yl,
            xl == x@.len(),
            yl == y@.len(),
            forall|j: int| 0 <= j < i ==> x@[j] == y@[j],
        decreases xl - i,
    {
        proof {
            lemma_lex_lt_skip(x@, y@, i as int);
        }
        if i == xl {
            return i < yl;
        }
        if i == yl {
            return false;
        }
        let cx = x.get_char(i);
        let cy = y.get_char(i);
        if (cx as u32) < (cy as u32) {
            assert(x@.skip(i as int)[0] == x@[i as int]);
            assert(y@.skip(i as int)[0] == y@[i as int]);
            return true;
        }
        if (cx as u32) > (cy as u32) {
            assert(x@.skip(i as int)[0] == x@[i as int]);
            assert(y@.skip(i as int)[0] == y@[i as int]);
            return false;
        }
        proof {
            vstd::utf8::char_u32_cast(cx, cx as u32);
            vstd::utf8::char_u32_cast(cy, cy as u32);
        }
        assert(cx == cy);
        i = i + 1;
    }
}

/// The tag of a version, as a character sequence.
pub open spec fn tag_view(v: SemanticVersion) -> Option<Seq<char>> {
    match v.tag {
        Option::Some(t) => Option::Some(t@),
        Option::None => Option::None,
    }
}

pub open spec fn triple_lt(a: SemanticVersion, b: SemanticVersion) -> bool {
    ||| a.major < b.major
    ||| (a.major == b.major && a.minor < b.minor)
    ||| (a.major == b.major && a.minor == b.minor && a.patch < b.patch)
}

pub open spec fn triple_eq(a: SemanticVersion, b: SemanticVersion) -> bool {
    a.major == b.major && a.minor == b.minor && a.patch == b.patch
}

/// Order on tags at an equal triple: a tagged version ranks below the bare
/// release; two tags compare lexicographically.
pub open spec fn tag_lt(a: Option<Seq<char>>, b: Option<Seq<char>>) -> bool {
    match (a, b) {
        (Option::Some(x), Option::None) => true,
        (Option::Some(x), Option::Some(y)) => lex_lt(x, y),
        (Option::None, _) => false,
    }
}

/// The semantic-version order: numeric triple precedence first; at an equal
/// triple a pre-release tag ranks below the bare release.
pub open spec fn version_lt(a: SemanticVersion, b: SemanticVersion) -> bool {
    triple_lt(a, b) || (triple_eq(a, b) && tag_lt(tag_view(a), tag_view(b)))
}

/// Two versions are the same point of the order when their triples and tag
/// texts agree.
pub open spec fn version_eq(a: SemanticVersion, b: SemanticVersion) -> bool {
    triple_eq(a, b) && tag_view(a) == tag_view(b)
}

pub open spec fn version_le(a: SemanticVersion, b: SemanticVersion) -> bool {
    version_lt(a, b) || version_eq(a, b)
}

/// The semantic-version order is total: of `a < b`, `b < a` and `a == b`,
/// exactly one holds; so `a <= b` is exactly the denial of `b < a`.
pub proof fn lemma_version_order_total(a: SemanticVersion, b: SemanticVersion)
    ensures
        version_le(a, b) || version_le(b, a),
        !(version_lt(a, b) && version_lt(b, a)),
        version_lt(a, b) ==> !version_eq(a, b),
        !version_le(a, b) <==> version_lt(b, a),
{
    match (tag_view(a), tag_view(b)) {
        (Option::Some(x), Option::Some(y)) => {
            lemma_lex_lt_trichotomy(x, y);
        },
        _ => {},
    }
}

impl SemanticVersion {
    /// Whether `self` is at most `other` in the semantic-version order.
    pub fn le(&self, other: &SemanticVersion) -> (r: bool)
        ensures
            r == version_le(*self, *other),
    {
        proof {
            lemma_version_order_total(*self, *other);
        }
        if self.major != other.major {
            return self.major < other.major;
        }
        if self.minor != other.minor {
            return self.minor < other.minor;
        }
        if self.patch != other.patch {
            return self.patch < other.patch;
        }
        match (&self.tag, &other.tag) {
            (Option::None, Option::None) => true,
            (Option::Some(_), Option::None) => true,
            (Option::None, Option::Some(_)) => false,
            (Option::Some(x), Option::Some(y)) => !str_lex_lt(y.as_str(), x.as_str()),
        }
    }
}

pub open spec fn digit_char(d: int) -> char {
    if d == 0 {
        '0'
    } else if d == 1 {
        '1'
    } else if d == 2 {
        '2'
    } else if d == 3 {
        '3'
    } else if d == 4 {
        '4'
    } else if d == 5 {
        '5'
    } else if d == 6 {
        '6'
    } else if d == 7 {
        '7'
    } else if d == 8 {
        '8'
    } else {
        '9'
    }
}

/// The decimal rendering of a non-negative number, most significant digit
/// first and without leading zeros.
pub open spec fn spec_num_chars(n: int) -> Seq<char>
    decreases n,
{
    if n < 0 {
        Seq::empty()
    } else if n < 10 {
        seq![digit_char(n)]
    } else {
        spec_num_chars(n / 10).push(digit_char(n % 10))
    }
}

fn digit_str(d: u64) -> (r: &'static str)
    requires
        d < 10,
    ensures
        r@ =~= seq![digit_char(d as int)],
{
    proof {
        reveal_strlit("0");
        reveal_strlit("1");
        reveal_strlit("2");
        reveal_strlit("3");
        reveal_strlit("4");
        reveal_strlit("5");
        reveal_strlit("6");
        reveal_strlit("7");
        reveal_strlit("8");
        reveal_strlit("9");
    }
    match d {
        0 => "0",
        1 => "1",
        2 => "2",
        3 => "3",
        4 => "4",
        5 => "5",
        6 => "6",
        7 => "7",
        8 => "8",
        _ => "9",
    }
}

/// Renders a number in decimal.
pub fn num_to_string(n: u64) -> (r: String)
    ensures
        r@ == spec_num_chars(n as int),
    decreases n,
{
    if n < 10 {
        String::from_str(digit_str(n))
    } else {
        let mut s = num_to_string(n / 10);
        s.append(digit_str(n % 10));
        proof {
            assert(spec_num_chars((n / 10) as int).push(digit_char((n % 10) as int)) =~= spec_num_chars(
                (n / 10) as int,
            ) + seq![digit_char((n % 10) as int)]);
        }
        s
    }
}

/// The canonical text of a version: the dotted triple, then `-` and the tag
/// when one is present.
pub open spec fn spec_version_chars(v: SemanticVersion) -> Seq<char> {
    spec_num_chars(v.major as int) + seq!['.'] + spec_num_chars(v.minor as int) + seq!['.']
        + spec_num_chars(v.patch as int) + (match v.tag {
        Option::None => Seq::<char>::empty(),
        Option::Some(t) => seq!['-'] + t@,
    })
}

impl SemanticVersion {
    /// Renders the version as text.
    pub fn to_text(&self) -> (r: String)
        ensures
            r@ == spec_version_chars(*self),
    {
        proof {
            reveal_strlit(".");
            reveal_strlit("-");
        }
        let mut s = num_to_string(self.major);
        s.append(".");
        s.append(num_to_string(self.minor).as_str());
        s.append(".");
        s.append(num_to_string(self.patch).as_str());
        match &self.tag {
            Option::None => {
                proof {
                    assert(s@ =~= spec_version_chars(*self));
                }
                s
            },
            Option::Some(t) => {
                s.append("-");
                s.append(t.as_str());
                proof {
                    assert(s@ =~= spec_version_chars(*self));
                }
                s
            },
        }
    }
}

/// The decimal rendering of `n` is a well-formed numeric component and reads
/// back as `n`; it starts with `0` only for `n == 0`.
proof fn lemma_num_chars_is_number(n: int)
    requires
        0 <= n <= u64::MAX,
    ensures
        is_number(spec_num_chars(n)),
        digits_value(spec_num_chars(n)) == n,
        n >= 1 ==> spec_num_chars(n)[0] != '0',
    decreases n,
{
    if n < 10 {
        let s = seq![digit_char(n)];
        assert(s.drop_last() =~= Seq::<char>::empty());
        assert(digits_value(Seq::<char>::empty()) == 0);
        assert(is_digit(digit_char(n)));
        assert(digit_val(digit_char(n)) == n);
        assert(all_digits(s)) by {
            assert(s[0] == digit_char(n));
        }
    } else {
        lemma_num_chars_is_number(n / 10);
        let p = spec_num_chars(n / 10);
        let d = n % 10;
        let s = p.push(digit_char(d));
        assert(0 <= n % 10 < 10);
        assert(n / 10 * 10 + n % 10 == n);
        assert(s.drop_last() =~= p);
        assert(s.last() == digit_char(d));
        assert(is_digit(digit_char(d)));
        assert(digit_val(digit_char(d)) == d);
        assert(digits_value(s) == digits_value(p) * 10 + d);
        assert(all_digits(s)) by {
            assert forall|l: int| 0 <= l < s.len() implies is_digit(s[l]) by {
                if l < p.len() {
                    assert(s[l] == p[l]);
                } else {
                    assert(s[l] == digit_char(d));
                }
            }
        }
        assert(s[0] == p[0]);
        assert(n / 10 >= 1);
    }
}

proof fn lemma_triple_matches_unique(s: Seq<char>, a1: int, b1: int, c1: int, a2: int, b2: int, c2: int)
    requires
        triple_matches(s, a1, b1, c1),
        triple_matches(s, a2, b2, c2),
    ensures
        a1 == a2,
        b1 == b2,
        c1 == c2,
{
    let (i1, j1) = choose|i1: int, j1: int| triple_matches_at(s, a1, b1, c1, i1, j1);
    let (i2, j2) = choose|i2: int, j2: int| triple_matches_at(s, a2, b2, c2, i2, j2);
    assert forall|l: int| 0 <= l < i1 implies s[l] != '.' by {
        assert(s.subrange(0, i1)[l] == s[l]);
        assert(!is_digit('.'));
    }
    assert forall|l: int| i1 + 1 <= l < j1 implies s[l] != '.' by {
        assert(s.subrange(i1 + 1, j1)[l - (i1 + 1)] == s[l]);
        assert(!is_digit('.'));
    }
    lemma_triple_dots_forced(s, a2, b2, c2, i2, j2, i1, j1);
}

/// Law: a text denotes at most one version. Two versions matched by the same
/// text agree in every component and in their tag text; with the round-trip
/// law this pins reading a rendered version down completely.
pub proof fn lemma_version_matches_unique(s: Seq<char>, v1: SemanticVersion, v2: SemanticVersion)
    requires
        version_matches(s, v1),
        version_matches(s, v2),
    ensures
        v1.major == v2.major,
        v1.minor == v2.minor,
        v1.patch == v2.patch,
        tag_view(v1) == tag_view(v2),
{
    if v1.tag is None && v2.tag is None {
        lemma_triple_matches_unique(
            s,
            v1.major as int,
            v1.minor as int,
            v1.patch as int,
            v2.major as int,
            v2.minor as int,
            v2.patch as int,
        );
    } else if v1.tag is Some && v2.tag is Some {
        let k1 = choose|k1: int|
            {
                &&& 0 <= k1 < s.len()
                &&& s[k1] == '-'
                &&& triple_matches(s.subrange(0, k1), v1.major as int, v1.minor as int, v1.patch as int)
                &&& is_tag(s.subrange(k1 + 1, s.len() as int))
                &&& v1.tag->0@ == s.subrange(k1 + 1, s.len() as int)
            };
        let k2 = choose|k2: int|
            {
                &&& 0 <= k2 < s.len()
                &&& s[k2] == '-'
                &&& triple_matches(s.subrange(0, k2), v2.major as int, v2.minor as int, v2.patch as int)
                &&& is_tag(s.subrange(k2 + 1, s.len() as int))
                &&& v2.tag->0@ == s.subrange(k2 + 1, s.len() as int)
            };
        assert forall|l: int| 0 <= l < k1 implies s[l] != '-' by {
            assert(s.subrange(0, k1)[l] == s[l]);
            lemma_triple_has_no_dash(
                s.subrange(0, k1),
                v1.major as int,
                v1.minor as int,
                v1.patch as int,
                l,
            );
        }
        lemma_dash_forced(s, v2, k1, k2);
        lemma_triple_matches_unique(
            s.subrange(0, k1),
            v1.major as int,
            v1.minor as int,
            v1.patch as int,
            v2.major as int,
            v2.minor as int,
            v2.patch as int,
        );
    } else if v1.tag is Some {
        let k1 = choose|k1: int|
            {
                &&& 0 <= k1 < s.len()
                &&& s[k1] == '-'
                &&& triple_matches(s.subrange(0, k1), v1.major as int, v1.minor as int, v1.patch as int)
                &&& is_tag(s.subrange(k1 + 1, s.len() as int))
                &&& v1.tag->0@ == s.subrange(k1 + 1, s.len() as int)
            };
        lemma_triple_has_no_dash(s, v2.major as int, v2.minor as int, v2.patch as int, k1);
    } else {
        let k2 = choose|k2: int|
            {
                &&& 0 <= k2 < s.len()
                &&& s[k2] == '-'
                &&& triple_matches(s.subrange(0, k2), v2.major as int, v2.minor as int, v2.patch as int)
                &&& is_tag(s.subrange(k2 + 1, s.len() as int))
                &&& v2.tag->0@ == s.subrange(k2 + 1, s.len() as int)
            };
        lemma_triple_has_no_dash(s, v1.major as int, v1.minor as int, v1.patch as int, k2);
    }
}

/// Law: rendering and reading are inverse. The text of a well-formed version
/// denotes exactly that version, so parsing it back yields the version it
/// was rendered from.
pub proof fn lemma_version_text_round_trip(v: SemanticVersion)
    requires
        v.wf(),
    ensures
        version_matches(spec_version_chars(v), v),
{
    let a = spec_num_chars(v.major as int);
    let b = spec_num_chars(v.minor as int);
    let c = spec_num_chars(v.patch as int);
    lemma_num_chars_is_number(v.major as int);
    lemma_num_chars_is_number(v.minor as int);
    lemma_num_chars_is_number(v.patch as int);
    let core = a + seq!['.'] + b + seq!['.'] + c;
    let i = a.len() as int;
    let j = i + 1 + b.len() as int;
    assert(core.subrange(0, i) =~= a);
    assert(core.subrange(i + 1, j) =~= b);
    assert(core.subrange(j + 1, core.len() as int) =~= c);
    assert(core[i] == '.');
    assert(core[j] == '.');
    assert(triple_matches_at(core, v.major as int, v.minor as int, v.patch as int, i, j));
    let s = spec_version_chars(v);
    match v.tag {
        Option::None => {
            assert(s =~= core);
        },
        Option::Some(t) => {
            let k = core.len() as int;
            assert(s =~= core + seq!['-'] + t@);
            assert(s[k] == '-');
            assert(s.subrange(0, k) =~= core);
            assert(s.subrange(k + 1, s.len() as int) =~= t@);
            assert(t@ == s.subrange(k + 1, s.len() as int));
        },
    }
}

} // verus!
