//! Which monitor, and how a picture sits in its area.
//!
//! A placement is written down once and resolved against the monitors that are
//! actually attached at the moment it is applied: a show file written on
//! Tuesday names "the projector", and on Wednesday the projector is on a
//! different connector. The geometry of resolving it is floating point and is done
//! around this crate; what a selector is, how it is named in a message when
//! nothing answers it, and which monitor a placement lands on once it is known
//! which of them answer, are here.

use vstd::prelude::*;

use crate::error::Error;
use crate::text::{decimal, plain_char, push_decimal, push_signed_decimal, quoted, signed_decimal};

verus! {

/// How a picture is placed inside the area it was given, when the two do not
/// share an aspect ratio.
#[derive(Clone, Copy, Debug, Default, PartialEq, Eq, Hash, Structural)]
pub enum Fit {
    /// Fill the area exactly, distorting the picture.
    Stretch,
    /// The whole picture, as large as fits. Letterboxes or pillarboxes.
    #[default]
    Contain,
    /// Fill the area, cropping whichever dimension is too long.
    Cover,
    /// One picture pixel per screen pixel, centred, cropped if too large.
    Exact,
}

/// How to find the monitor a placement means.
#[derive(Clone, Debug, PartialEq, Eq)]
pub enum MonitorSelector {
    /// Whichever the platform calls primary.
    Primary,
    /// By position in the list. Stable within a session and not across one.
    Index(usize),
    /// By name, case-insensitively, matching on a substring so `"DELL"` finds
    /// `"DELL U2720Q"`.
    Name(String),
    /// Whichever monitor contains a point in desktop coordinates. Survives
    /// re-ordering, which an index does not.
    ContainingPoint(i32, i32),
}

impl MonitorSelector {
    /// How the selector is written in a message: "the primary monitor",
    /// "monitor 2", "the monitor named \"DELL\"", "the monitor containing
    /// (1920, 0)". A name is quoted as `{:?}` writes it.
    pub fn describe(&self) -> (s: String)
        ensures
            self is Primary ==> s@ == "the primary monitor"@,
            self matches MonitorSelector::Index(i) ==> s@ == "monitor "@ + decimal(i as nat),
            self matches MonitorSelector::ContainingPoint(x, y) ==> s@ == "the monitor containing ("@
                + signed_decimal(x as int) + ", "@ + signed_decimal(y as int) + ")"@,
            self matches MonitorSelector::Name(name) ==> exists|shown: Seq<char>|
                shown.len() >= 2 && shown[0] == '"' && shown.last() == '"' && s@
                    == "the monitor named "@ + shown && ((forall|i: int|
                    0 <= i < name@.len() ==> #[trigger] plain_char(name@[i])) ==> shown == seq!['"']
                    + name@ + seq!['"']),
    {
        match self {
            MonitorSelector::Primary => String::from_str("the primary monitor"),
            MonitorSelector::Index(index) => {
                let mut s = String::from_str("monitor ");
                push_decimal(&mut s, *index as u64);
                s
            },
            MonitorSelector::Name(name) => {
                let mut s = String::from_str("the monitor named ");
                let shown = quoted(name.as_str());
                s.append(shown.as_str());
                proof {
                    assert(s@ =~= "the monitor named "@ + shown@);
                }
                s
            },
            MonitorSelector::ContainingPoint(x, y) => {
                let mut s = String::from_str("the monitor containing (");
                push_signed_decimal(&mut s, *x as i64);
                s.append(", ");
                push_signed_decimal(&mut s, *y as i64);
                s.append(")");
                s
            },
        }
    }
}

/// The platform's primary monitor among `primaries` (one flag per attached
/// monitor): the first marked primary, or the first of all where none is.
pub open spec fn spec_primary_index(primaries: Seq<bool>) -> Option<nat> {
    if exists|i: int| 0 <= i < primaries.len() && primaries[i] {
        let i = choose|i: int| 0 <= i < primaries.len() && primaries[i] && forall|j: int| 0 <= j < i ==> !#[trigger] primaries[j];
        Some(i as nat)
    } else if primaries.len() > 0 {
        Some(0)
    } else {
        None
    }
}

/// Where the primary monitor is in the list: the first one the platform marks
/// primary, or, where it marks none, the first one.
pub fn primary_index(primaries: &[bool]) -> (r: Option<usize>)
    ensures
        match r {
            Some(i) => i < primaries@.len() && ((primaries@[i as int] && forall|j: int|
                0 <= j < i ==> !#[trigger] primaries@[j]) || (i == 0 && forall|j: int|
                0 <= j < primaries@.len() ==> !#[trigger] primaries@[j])),
            None => primaries@.len() == 0,
        },
        r matches Some(i) ==> spec_primary_index(primaries@) == Some(i as nat),
        r is None ==> spec_primary_index(primaries@) is None,
{
    let mut i: usize = 0;
    while i < primaries.len()
        invariant
            i <= primaries@.len(),
            forall|j: int| 0 <= j < i ==> !#[trigger] primaries@[j],
        decreases primaries@.len() - i,
    {
        if primaries[i] {
            proof {
                let k = choose|k: int| 0 <= k < primaries@.len() && primaries@[k] && forall|j: int|
                    0 <= j < k ==> !#[trigger] primaries@[j];
                if k < i {
                } else if k > i {
                    assert(!primaries@[i as int]);
                }
            }
            return Some(i);
        }
        i = i + 1;
    }
    if primaries.len() > 0 {
        Some(0)
    } else {
        None
    }
}

/// Which monitor a placement lands on, and whether it fell back to get there.
///
/// `found` is the monitor the selector answered to, if any did; `primaries`
/// says, one flag per attached monitor, which the platform calls primary;
/// `shown` is the selector as a message names it. With no monitors at all
/// there is nothing to land on. Otherwise the one found is used; failing that,
/// the primary is, when falling back is allowed; and failing that, the
/// selector is reported along with how many monitors there were. A `found`
/// past the end of the list counts as nothing found.
///
/// # Errors
///
/// [`Error::NoSuchMonitor`] as above.
pub fn land_on_monitor(
    shown: String,
    found: Option<usize>,
    primaries: &[bool],
    fall_back: bool,
) -> (r: Result<(usize, bool), Error>)
    ensures
        if primaries@.len() == 0 {
            r matches Err(Error::NoSuchMonitor { selector, available }) && selector@ == shown@
                && available == 0
        } else if found matches Some(i) && i < primaries@.len() {
            r == Ok::<(usize, bool), Error>((found->0, false))
        } else if fall_back {
            r matches Ok((i, true)) && spec_primary_index(primaries@) == Some(i as nat)
        } else {
            r matches Err(Error::NoSuchMonitor { selector, available }) && selector@ == shown@
                && available == primaries@.len()
        },
{
    let count = primaries.len();
    if count == 0 {
        return Err(Error::NoSuchMonitor { selector: shown, available: 0 });
    }
    if let Some(i) = found {
        if i < count {
            return Ok((i, false));
        }
    }
    if fall_back {
        match primary_index(primaries) {
            Some(i) => Ok((i, true)),
            None => Err(Error::NoSuchMonitor { selector: shown, available: count }),
        }
    } else {
        Err(Error::NoSuchMonitor { selector: shown, available: count })
    }
}

/// A string in lower case as the standard library folds it, Unicode and all.
pub uninterp spec fn lowercased(s: Seq<char>) -> Seq<char>;

/// A string in lower case (`str::to_lowercase`).
///
/// Trusted: the result is the standard library's lower-case form of these
/// characters, which depends on them alone. What that form is for a given
/// character is Unicode's business and is not stated.
#[verifier::external_body]
fn lowercase(s: &str) -> (r: String)
    ensures
        r@ == lowercased(s@),
{
    s.to_lowercase()
}

/// Whether `needle` occurs in `haystack` as a run of consecutive characters;
/// an empty needle occurs everywhere.
pub open spec fn contains_chars(haystack: Seq<char>, needle: Seq<char>) -> bool {
    exists|i: int|
        0 <= i && i + needle.len() <= haystack.len() && #[trigger] haystack.subrange(
            i,
            i + needle.len(),
        ) == needle
}

/// Whether a monitor called `name` answers a selector asking for `wanted`:
/// case-insensitively, anywhere in the name.
pub open spec fn name_answers(name: Seq<char>, wanted: Seq<char>) -> bool {
    contains_chars(lowercased(name), lowercased(wanted))
}

/// A string's characters, one by one.
fn chars_of(s: &str) -> (v: Vec<char>)
    ensures
        v@ == s@,
{
    let n = s.unicode_len();
    let mut v: Vec<char> = Vec::new();
    let mut i: usize = 0;
    while i < n
        invariant
            n == s@.len(),
            i <= n,
            v@ == s@.subrange(0, i as int),
        decreases n - i,
    {
        v.push(s.get_char(i));
        i = i + 1;
        proof {
            assert(v@ =~= s@.subrange(0, i as int));
        }
    }
    proof {
        assert(s@.subrange(0, n as int) =~= s@);
    }
    v
}

/// Whether `needle` occurs in `haystack`.
fn has_run(haystack: &Vec<char>, needle: &Vec<char>) -> (r: bool)
    ensures
        r == contains_chars(haystack@, needle@),
{
    let n = haystack.len();
    let m = needle.len();
    if n < m {
        return false;
    }
    let mut i: usize = 0;
    while i <= n - m
        invariant
            n == haystack@.len(),
            m == needle@.len(),
            m <= n,
            i <= n - m + 1,
            forall|k: int| 0 <= k < i ==> #[trigger] haystack@.subrange(k, k + m) != needle@,
        decreases n - m + 1 - i,
    {
        let mut j: usize = 0;
        let mut same = true;
        while j < m
            invariant
                n == haystack@.len(),
                m == needle@.len(),
                i + m <= n,
                j <= m,
                same == (forall|k: int| 0 <= k < j ==> haystack@[i + k] == needle@[k]),
            decreases m - j,
        {
            if haystack[i + j] != needle[j] {
                same = false;
            }
            j = j + 1;
        }
        if same {
            proof {
                assert(haystack@.subrange(i as int, i + m) =~= needle@);
            }
            return true;
        }
        proof {
            assert(haystack@.subrange(i as int, i + m) != needle@) by {
                let k = choose|k: int| 0 <= k < m && haystack@[i + k] != needle@[k];
                assert(haystack@.subrange(i as int, i + m)[k] != needle@[k]);
            }
        }
        i = i + 1;
    }
    false
}

/// The first of `names` that holds `wanted`, ignoring case.
fn first_named(names: &[String], wanted: &str) -> (r: Option<usize>)
    ensures
        match r {
            Some(i) => i < names@.len() && name_answers(names@[i as int]@, wanted@) && forall|j: int|
                0 <= j < i ==> !#[trigger] name_answers(names@[j]@, wanted@),
            None => forall|j: int| 0 <= j < names@.len() ==> !#[trigger] name_answers(names@[j]@, wanted@),
        },
{
    let folded = lowercase(wanted);
    let needle = chars_of(folded.as_str());
    let mut k: usize = 0;
    while k < names.len()
        invariant
            k <= names@.len(),
            needle@ == lowercased(wanted@),
            forall|j: int| 0 <= j < k ==> !#[trigger] name_answers(names@[j]@, wanted@),
        decreases names@.len() - k,
    {
        let name = lowercase(names[k].as_str());
        let haystack = chars_of(name.as_str());
        if has_run(&haystack, &needle) {
            return Some(k);
        }
        k = k + 1;
    }
    None
}

/// An index as a number.
pub open spec fn index_nat(o: Option<usize>) -> Option<nat> {
    match o {
        Some(i) => Some(i as nat),
        None => None,
    }
}

/// Which attached monitor a selector names, if any. The monitors are given by
/// their names and, one flag each, whether the platform calls them primary.
///
/// - Primary: the first marked primary, or the first of all where none is.
/// - Index: that one, if there are that many.
/// - Name: the first whose name holds the wanted one, ignoring case.
/// - ContainingPoint: `at_point`, the first monitor whose bounds hold the
///   point. Bounds are floating point and are looked at around this crate.
pub fn select_monitor(
    selector: &MonitorSelector,
    names: &[String],
    primaries: &[bool],
    at_point: Option<usize>,
) -> (r: Option<usize>)
    requires
        names@.len() == primaries@.len(),
    ensures
        match *selector {
            MonitorSelector::Primary => index_nat(r) == spec_primary_index(primaries@),
            MonitorSelector::Index(i) => r == (if i < names@.len() {
                Some(i)
            } else {
                None
            }),
            MonitorSelector::Name(wanted) => match r {
                Some(i) => i < names@.len() && name_answers(names@[i as int]@, wanted@) && forall|j: int|
                    0 <= j < i ==> !#[trigger] name_answers(names@[j]@, wanted@),
                None => forall|j: int|
                    0 <= j < names@.len() ==> !#[trigger] name_answers(names@[j]@, wanted@),
            },
            MonitorSelector::ContainingPoint(_, _) => r == (match at_point {
                Some(i) if i < names@.len() => Some(i),
                _ => None,
            }),
        },
{
    match selector {
        MonitorSelector::Primary => primary_index(primaries),
        MonitorSelector::Index(i) => {
            if *i < names.len() {
                Some(*i)
            } else {
                None
            }
        },
        MonitorSelector::Name(wanted) => first_named(names, wanted.as_str()),
        MonitorSelector::ContainingPoint(_, _) => match at_point {
            Some(i) => {
                if i < names.len() {
                    Some(i)
                } else {
                    None
                }
            },
            None => None,
        },
    }
}

} // verus!
