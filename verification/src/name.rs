//! Project-name validation: the name a user supplies is trimmed of surrounding
//! whitespace and then held to the package-name character rules.

use vstd::prelude::*;

verus! {

/// The byte `'-'`.
pub const HYPHEN: u8 = 45;

/// The byte `'_'`.
pub const UNDERSCORE: u8 = 95;

/// Bytes a project name may hold: lowercase ASCII letters, digits, hyphen,
/// underscore.
pub open spec fn is_name_byte(b: u8) -> bool {
    (97 <= b && b <= 122) || (48 <= b && b <= 57) || b == HYPHEN || b == UNDERSCORE
}

/// A well-formed project name: non-empty, every byte allowed, and no hyphen at
/// either end.
pub open spec fn valid_name(s: Seq<u8>) -> bool {
    &&& s.len() > 0
    &&& (forall|i: int| 0 <= i < s.len() ==> is_name_byte(s[i]))
    &&& s[0] != HYPHEN
    &&& s[s.len() - 1] != HYPHEN
}

/// ASCII whitespace: tab, line feed, vertical tab, form feed, carriage return,
/// space.
pub open spec fn is_space_byte(b: u8) -> bool {
    b == 32 || b == 9 || b == 10 || b == 11 || b == 12 || b == 13
}

/// `s` without its leading whitespace bytes.
pub open spec fn trim_front(s: Seq<u8>) -> Seq<u8>
    decreases s.len(),
{
    if s.len() > 0 && is_space_byte(s[0]) {
        trim_front(s.skip(1))
    } else {
        s
    }
}

/// `s` without its trailing whitespace bytes.
pub open spec fn trim_back(s: Seq<u8>) -> Seq<u8>
    decreases s.len(),
{
    if s.len() > 0 && is_space_byte(s[s.len() - 1]) {
        trim_back(s.take(s.len() - 1))
    } else {
        s
    }
}

/// `s` without surrounding whitespace.
pub open spec fn trim_spec(s: Seq<u8>) -> Seq<u8> {
    trim_back(trim_front(s))
}

/// Whether `name` is a well-formed project name.
pub fn is_valid_package_name(name: &[u8]) -> (ok: bool)
    ensures
        ok == valid_name(name@),
{
    if name.len() == 0 {
        return false;
    }
    if name[0] == HYPHEN || name[name.len() - 1] == HYPHEN {
        return false;
    }
    let mut i: usize = 0;
    while i < name.len()
        invariant
            i <= name@.len(),
            forall|j: int| 0 <= j < i ==> is_name_byte(name@[j]),
        decreases name@.len() - i,
    {
        let b = name[i];
        if !((97 <= b && b <= 122) || (48 <= b && b <= 57) || b == HYPHEN || b == UNDERSCORE) {
            assert(!is_name_byte(name@[i as int]));
            return false;
        }
        i += 1;
    }
    true
}

/// Validation accepts every non-empty string made only of lowercase letters,
/// digits, hyphens and underscores that neither starts nor ends with a hyphen.
pub proof fn lemma_validation_accepts(s: Seq<u8>)
    requires
        s.len() > 0,
        forall|i: int| 0 <= i < s.len() ==> is_name_byte(s[i]),
        s[0] != HYPHEN,
        s[s.len() - 1] != HYPHEN,
    ensures
        valid_name(s),
{
}

/// Validation rejects every string holding an uppercase letter, a space, or any
/// other byte outside the allowed set.
pub proof fn lemma_validation_rejects(s: Seq<u8>, i: int)
    requires
        0 <= i < s.len(),
        (65 <= s[i] && s[i] <= 90) || s[i] == 32 || !is_name_byte(s[i]),
    ensures
        !valid_name(s),
{
    assert(!is_name_byte(s[i]));
}

/// A string of nothing but whitespace trims to the empty string, so it is
/// turned down as empty, not as ill-formed.
pub proof fn lemma_whitespace_only_trims_empty(s: Seq<u8>)
    requires
        forall|i: int| 0 <= i < s.len() ==> is_space_byte(s[i]),
    ensures
        trim_spec(s).len() == 0,
{
    lemma_trim_front_all_space(s);
}

/// `trim_front` consumes a string made only of whitespace whole.
proof fn lemma_trim_front_all_space(s: Seq<u8>)
    requires
        forall|i: int| 0 <= i < s.len() ==> is_space_byte(s[i]),
    ensures
        trim_front(s).len() == 0,
    decreases s.len(),
{
    if s.len() > 0 {
        assert(is_space_byte(s[0]));
        assert(forall|i: int| 0 <= i < s.skip(1).len() ==> is_space_byte(#[trigger] s.skip(1)[i]));
        lemma_trim_front_all_space(s.skip(1));
    }
}

/// `raw` without surrounding ASCII whitespace.
pub fn trim_whitespace(raw: &[u8]) -> (t: Vec<u8>)
    ensures
        t@ == trim_spec(raw@),
{
    let mut lo: usize = 0;
    proof {
        assert(raw@.skip(0) =~= raw@);
    }
    while lo < raw.len() && is_space(raw[lo])
        invariant
            lo <= raw@.len(),
            trim_front(raw@) == trim_front(raw@.skip(lo as int)),
        decreases raw@.len() - lo,
    {
        proof {
            assert(raw@.skip(lo as int).skip(1) =~= raw@.skip(lo as int + 1));
        }
        lo += 1;
    }
    proof {
        assert(trim_front(raw@) =~= raw@.subrange(lo as int, raw@.len() as int));
    }
    let mut hi: usize = raw.len();
    while hi > lo && is_space(raw[hi - 1])
        invariant
            lo <= hi <= raw@.len(),
            trim_back(raw@.subrange(lo as int, raw@.len() as int)) == trim_back(
                raw@.subrange(lo as int, hi as int),
            ),
        decreases hi,
    {
        proof {
            assert(raw@.subrange(lo as int, hi as int).take(hi - lo - 1) =~= raw@.subrange(
                lo as int,
                hi as int - 1,
            ));
        }
        hi -= 1;
    }
    proof {
        assert(trim_spec(raw@) =~= raw@.subrange(lo as int, hi as int));
    }
    let mut t: Vec<u8> = Vec::new();
    let mut j: usize = lo;
    while j < hi
        invariant
            lo <= j <= hi <= raw@.len(),
            t@ == raw@.subrange(lo as int, j as int),
        decreases hi - j,
    {
        t.push(raw[j]);
        proof {
            assert(raw@.subrange(lo as int, j as int + 1) =~= raw@.subrange(
                lo as int,
                j as int,
            ).push(raw@[j as int]));
        }
        j += 1;
    }
    t
}

/// Whether `b` is ASCII whitespace.
fn is_space(b: u8) -> (r: bool)
    ensures
        r == is_space_byte(b),
{
    b == 32 || b == 9 || b == 10 || b == 11 || b == 12 || b == 13
}

/// Why a supplied name was turned down: it was empty once trimmed, or it held a
/// disallowed character or a hyphen at an end.
#[derive(Clone, Copy, Debug, PartialEq, Eq, Structural)]
pub enum NameError {
    Empty,
    Invalid,
}

/// Trim the raw input and validate it. Returns the trimmed name exactly when it
/// is well-formed; `Empty` exactly when nothing but whitespace was supplied;
/// `Invalid` exactly when something was supplied but breaks the name rules.
pub fn resolve_project_name(raw: &[u8]) -> (r: Result<Vec<u8>, NameError>)
    ensures
        match r {
            Ok(name) => name@ == trim_spec(raw@) && valid_name(name@),
            Err(NameError::Empty) => trim_spec(raw@).len() == 0,
            Err(NameError::Invalid) => trim_spec(raw@).len() > 0 && !valid_name(trim_spec(raw@)),
        },
{
    let trimmed = trim_whitespace(raw);
    if trimmed.len() == 0 {
        Err(NameError::Empty)
    } else if is_valid_package_name(trimmed.as_slice()) {
        Ok(trimmed)
    } else {
        Err(NameError::Invalid)
    }
}

} // verus!
