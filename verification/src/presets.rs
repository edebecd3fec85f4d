use vstd::prelude::*;
use vstd::string::StrSliceExecFns;

use crate::error::Error;
use crate::time::{spec_parse_rfc3339, parse_rfc3339, OffsetTime};

verus! {

/// One add-on reference inside a preset. A `Steam` reference names a
/// catalog id; a `Local` reference names a path to an untracked add-on and
/// never takes part in any cross-catalog statistic.
#[derive(Debug, Clone, PartialEq, Eq)]
pub enum PresetAddon {
    Steam(u64),
    Local(String),
}

/// The mathematical shape of a [`PresetAddon`]: the id, or the path's text.
pub enum PresetAddonView {
    Steam(u64),
    Local(Seq<char>),
}

impl View for PresetAddon {
    type V = PresetAddonView;

    open spec fn view(&self) -> PresetAddonView {
        match self {
            PresetAddon::Steam(id) => PresetAddonView::Steam(*id),
            PresetAddon::Local(p) => PresetAddonView::Local(p@),
        }
    }
}

pub open spec fn spec_steam_id(m: PresetAddon) -> Option<u64> {
    match m {
        PresetAddon::Steam(id) => Some(id),
        PresetAddon::Local(_) => None,
    }
}

impl PresetAddon {
    /// The catalog id this reference points at, if it is a remote one.
    pub fn into_steam(self) -> (r: Option<u64>)
        ensures
            r == spec_steam_id(self),
    {
        match self {
            PresetAddon::Steam(id) => Some(id),
            PresetAddon::Local(_) => None,
        }
    }
}

/// A saved load-out: a name, the time it was last written, and the add-on
/// references it lists, in order.
#[derive(Debug, Clone, PartialEq, Eq)]
pub struct Preset {
    pub name: String,
    pub last_update: OffsetTime,
    pub mods: Vec<PresetAddon>,
}

pub open spec fn is_ascii_digit_char(c: char) -> bool {
    '0' as u32 <= c as u32 <= '9' as u32
}

pub open spec fn digit_val(c: char) -> int {
    c as u32 - '0' as u32
}

pub open spec fn all_digits(s: Seq<char>) -> bool {
    forall|i: int| 0 <= i < s.len() ==> is_ascii_digit_char(s[i])
}

/// The number a string of decimal digits denotes.
pub open spec fn digits_value(s: Seq<char>) -> int
    decreases s.len(),
{
    if s.len() == 0 {
        0
    } else {
        digits_value(s.drop_last()) * 10 + digit_val(s.last())
    }
}

/// What `str::parse::<u64>` accepts: an optional leading plus sign, then
/// at least one decimal digit, denoting a value that fits in 64 bits.
pub open spec fn spec_parse_u64(s: Seq<char>) -> Option<u64> {
    let digits = if s.len() > 0 && s[0] == '+' {
        s.drop_first()
    } else {
        s
    };
    if digits.len() > 0 && all_digits(digits) && digits_value(digits) <= u64::MAX {
        Some(digits_value(digits) as u64)
    } else {
        None
    }
}

proof fn lemma_digits_value_nonneg(s: Seq<char>)
    requires
        all_digits(s),
    ensures
        digits_value(s) >= 0,
    decreases s.len(),
{
    if s.len() > 0 {
        assert(all_digits(s.drop_last()));
        lemma_digits_value_nonneg(s.drop_last());
    }
}

/// Appending further digits never makes the denoted number smaller.
proof fn lemma_digits_value_monotone(s: Seq<char>, j: int)
    requires
        all_digits(s),
        0 <= j <= s.len(),
    ensures
        digits_value(s) >= digits_value(s.take(j)),
    decreases s.len() - j,
{
    if j < s.len() {
        assert(all_digits(s.take(j))) by {
            assert(forall|k: int| 0 <= k < j ==> s.take(j)[k] == s[k]);
        }
        lemma_digits_value_nonneg(s.take(j));
        assert(s.take(j + 1).drop_last() =~= s.take(j));
        assert(s.take(j + 1).last() == s[j]);
        assert(digits_value(s.take(j + 1)) == digits_value(s.take(j)) * 10 + digit_val(s[j]));
        lemma_digits_value_monotone(s, j + 1);
    } else {
        assert(s.take(j) =~= s);
    }
}

/// A by-hand `str::parse::<u64>`: digits are folded in from the left, and
/// a string whose value cannot fit is rejected just as a malformed one is.
pub fn parse_u64(s: &str) -> (r: Option<u64>)
    ensures
        r == spec_parse_u64(s@),
{
    let n = s.unicode_len();
    let start: usize = if n > 0 && s.get_char(0) == '+' {
        1
    } else {
        0
    };
    let ghost digits = if start == 1 {
        s@.drop_first()
    } else {
        s@
    };
    proof {
        assert(digits.len() == n - start);
        assert(forall|k: int| 0 <= k < digits.len() ==> digits[k] == s@[k + start]);
    }
    if n == start {
        return None;
    }
    let mut acc: u64 = 0;
    let mut i: usize = start;
    while i < n
        invariant
            start <= i <= n,
            start <= 1,
            n == s@.len(),
            digits == (if s@.len() > 0 && s@[0] == '+' {
                s@.drop_first()
            } else {
                s@
            }),
            digits.len() == n - start,
            forall|k: int| 0 <= k < digits.len() ==> digits[k] == s@[k + start],
            forall|k: int| 0 <= k < i - start ==> is_ascii_digit_char(digits[k]),
            acc == digits_value(digits.take(i - start)),
        decreases n - i,
    {
        let c = s.get_char(i);
        let cu = c as u32;
        if !('0' as u32 <= cu && cu <= '9' as u32) {
            assert(!is_ascii_digit_char(digits[i - start]));
            return None;
        }
        let d = (cu - '0' as u32) as u64;
        proof {
            assert(digits.take(i - start + 1).drop_last() =~= digits.take(i - start));
            assert(digits.take(i - start + 1).last() == digits[i - start]);
        }
        let acc10 = match acc.checked_mul(10) {
            Some(v) => v,
            None => {
                proof {
                    overflow_means_none(digits, i - start, acc as int, d as int);
                }
                return None;
            },
        };
        acc = match acc10.checked_add(d) {
            Some(v) => v,
            None => {
                proof {
                    overflow_means_none(digits, i - start, acc as int, d as int);
                }
                return None;
            },
        };
        i += 1;
    }
    proof {
        assert(digits.take(i - start) =~= digits);
    }
    Some(acc)
}

/// Once a digit prefix already denotes more than `u64::MAX`, the whole
/// string cannot parse, whatever follows.
proof fn overflow_means_none(digits: Seq<char>, j: int, acc: int, d: int)
    requires
        0 <= j < digits.len(),
        is_ascii_digit_char(digits[j]),
        forall|k: int| 0 <= k < j ==> is_ascii_digit_char(digits[k]),
        acc == digits_value(digits.take(j)),
        d == digit_val(digits[j]),
        acc * 10 + d > u64::MAX,
    ensures
        all_digits(digits) ==> digits_value(digits) > u64::MAX,
{
    if all_digits(digits) {
        assert(digits.take(j + 1).drop_last() =~= digits.take(j));
        assert(digits.take(j + 1).last() == digits[j]);
        assert(digits_value(digits.take(j + 1)) == acc * 10 + d);
        lemma_digits_value_monotone(digits, j + 1);
    }
}

/// Whether `s` begins with the characters of `p`.
fn starts_with_chars(s: &str, p: &str) -> (r: bool)
    ensures
        r == (s@.len() >= p@.len() && s@.take(p@.len() as int) == p@),
{
    let pn = p.unicode_len();
    let sn = s.unicode_len();
    if sn < pn {
        return false;
    }
    let mut i: usize = 0;
    while i < pn
        invariant
            i <= pn,
            pn == p@.len(),
            sn == s@.len(),
            sn >= pn,
            forall|k: int| 0 <= k < i ==> s@[k] == p@[k],
        decreases pn - i,
    {
        if s.get_char(i) != p.get_char(i) {
            proof {
                assert(s@.take(pn as int)[i as int] != p@[i as int]);
            }
            return false;
        }
        i += 1;
    }
    proof {
        assert(s@.take(pn as int) =~= p@);
    }
    true
}

pub open spec fn steam_prefix() -> Seq<char> {
    seq!['s', 't', 'e', 'a', 'm', ':']
}

pub open spec fn local_prefix() -> Seq<char> {
    seq!['l', 'o', 'c', 'a', 'l', ':']
}

/// What a tagged reference string denotes: `steam:` followed by a decimal
/// id, or `local:` followed by a path; anything else is invalid.
pub open spec fn spec_parse_mod_ref(s: Seq<char>) -> Option<PresetAddonView> {
    if s.len() >= 6 && s.take(6) == steam_prefix() {
        match spec_parse_u64(s.skip(6)) {
            Some(id) => Some(PresetAddonView::Steam(id)),
            None => None,
        }
    } else if s.len() >= 6 && s.take(6) == local_prefix() {
        Some(PresetAddonView::Local(s.skip(6)))
    } else {
        None
    }
}

/// Decodes one tagged reference string from a preset document.
pub fn parse_preset_addon(s: &str) -> (r: Option<PresetAddon>)
    ensures
        match r {
            Some(m) => spec_parse_mod_ref(s@) == Some(m@),
            None => spec_parse_mod_ref(s@) is None,
        },
{
    proof {
        reveal_strlit("steam:");
        reveal_strlit("local:");
        assert(("steam:")@ =~= steam_prefix());
        assert(("local:")@ =~= local_prefix());
    }
    let n = s.unicode_len();
    if starts_with_chars(s, "steam:") {
        let rest = s.substring_char(6, n);
        match parse_u64(rest) {
            Some(id) => Some(PresetAddon::Steam(id)),
            None => None,
        }
    } else if starts_with_chars(s, "local:") {
        let rest = s.substring_char(6, n);
        Some(PresetAddon::Local(rest.to_owned()))
    } else {
        None
    }
}

impl Preset {
    /// Builds a preset from its raw decoded pieces: the timestamp text and
    /// the tagged reference strings, in document order. The first piece
    /// that does not conform is reported, carried inside the error
    /// together with the preset's name.
    pub fn from_raw(name: String, last_update: &str, mods: &Vec<String>) -> (r: Result<
        Preset,
        Error,
    >)
        ensures
            (r is Ok) == (spec_parse_rfc3339(last_update@) is Some && (forall|i: int|
                0 <= i < mods@.len() ==> spec_parse_mod_ref(mods@[i]@) is Some)),
            r matches Ok(p) ==> {
                &&& p.name == name
                &&& spec_parse_rfc3339(last_update@) == Some(p.last_update)
                &&& p.last_update.wf()
                &&& p.mods@.len() == mods@.len()
                &&& forall|i: int|
                    0 <= i < mods@.len() ==> spec_parse_mod_ref(mods@[i]@) == Some(p.mods@[i]@)
            },
            r matches Err(e) ==> e matches Error::PresetParsingFailed(detail, nm) && nm == name,
    {
        let lu = match parse_rfc3339(last_update) {
            Some(t) => t,
            None => {
                return Err(Error::PresetParsingFailed(last_update.to_owned(), name));
            },
        };
        let mut out: Vec<PresetAddon> = Vec::new();
        let mut i: usize = 0;
        while i < mods.len()
            invariant
                i <= mods@.len(),
                out@.len() == i,
                forall|k: int| 0 <= k < i ==> spec_parse_mod_ref(mods@[k]@) == Some(out@[k]@),
            decreases mods@.len() - i,
        {
            match parse_preset_addon(mods[i].as_str()) {
                Some(m) => {
                    out.push(m);
                },
                None => {
                    return Err(Error::PresetParsingFailed(mods[i].clone(), name));
                },
            }
            i += 1;
        }
        Ok(Preset { name, last_update: lu, mods: out })
    }
}

} // verus!
