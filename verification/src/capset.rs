//! Sets of capabilities, the fixed sets the service hands out, and the plan
//! for issuing a new rcan.

use vstd::prelude::*;

use crate::caps;
use crate::caps::{Cap, CapModel};
use crate::text::{compare_strs, Order};

verus! {

/// The values of a sequence of capabilities.
pub open spec fn models(v: Seq<Cap>) -> Seq<CapModel> {
    v.map_values(|c: Cap| c@)
}

/// Strictly increasing in the order of `Cap`'s `Ord`: sorted, nothing twice.
pub open spec fn strictly_sorted(s: Seq<CapModel>) -> bool {
    forall|i: int, j: int| 0 <= i < j < s.len() ==> caps::cap_lt(#[trigger] s[i], #[trigger] s[j])
}

/// Some capability of `a` permits `c`.
pub open spec fn some_permits(a: Seq<CapModel>, c: CapModel) -> bool {
    exists|i: int| 0 <= i < a.len() && caps::cap_permits(#[trigger] a[i], c)
}

/// Every capability of `b` is permitted by some capability of `a`.
pub open spec fn set_permits(a: Seq<CapModel>, b: Seq<CapModel>) -> bool {
    forall|j: int| 0 <= j < b.len() ==> some_permits(a, #[trigger] b[j])
}

/// A set of capabilities, kept in increasing order with nothing twice (as a
/// `BTreeSet` keeps them).
///
/// The set is a `Vec` kept sorted under [`caps::cap_lt`], with that order as
/// its type invariant, rather than a `BTreeSet`: vstd's contracts for
/// `BTreeSet` hold only for key types whose `Ord` it knows to obey the laws of
/// an order (integers and tuples of them), and `Cap`'s `Ord` is derived, which
/// Verus does not read.
#[derive(Debug, PartialEq, Eq, PartialOrd, Ord)]
pub struct CapSet {
    caps: Vec<Cap>,
}

impl View for CapSet {
    type V = Seq<CapModel>;

    closed spec fn view(&self) -> Seq<CapModel> {
        models(self.caps@)
    }
}

impl CapSet {
    #[verifier::type_invariant]
    closed spec fn sorted(self) -> bool {
        strictly_sorted(self@)
    }

    /// The set of the given capabilities.
    pub fn new(set: Vec<Cap>) -> (r: CapSet)
        ensures
            strictly_sorted(r@),
            forall|c: CapModel| r@.contains(c) <==> models(set@).contains(c),
    {
        let mut caps: Vec<Cap> = Vec::new();
        let n = set.len();
        let mut k: usize = 0;
        while k < n
            invariant
                n == set@.len(),
                k <= n,
                strictly_sorted(models(caps@)),
                forall|c: CapModel|
                    models(caps@).contains(c) <==> models(set@.take(k as int)).contains(c),
            decreases n - k,
        {
            let c = set[k].duplicate();
            insert_sorted(&mut caps, c);
            proof {
                let before = models(set@.take(k as int));
                let after = models(set@.take(k + 1));
                assert(after =~= before.push(set@[k as int]@));
                assert forall|x: CapModel| after.contains(x) <==> (before.contains(x) || x == set@[k as int]@) by {
                    if after.contains(x) {
                        let i = choose|i: int| 0 <= i < after.len() && after[i] == x;
                        if i < before.len() {
                            assert(before[i] == x);
                        }
                    }
                    if before.contains(x) {
                        let i = choose|i: int| 0 <= i < before.len() && before[i] == x;
                        assert(after[i] == x);
                    }
                    if x == set@[k as int]@ {
                        assert(after[k as int] == x);
                    }
                }
            }
            k = k + 1;
        }
        assert(set@.take(n as int) =~= set@);
        CapSet { caps }
    }

    /// The members, in increasing order.
    pub fn iter(&self) -> (r: &[Cap])
        ensures
            models(r@) == self@,
            strictly_sorted(self@),
    {
        proof {
            use_type_invariant(self);
        }
        self.caps.as_slice()
    }

    /// Whether every capability of `other` is permitted by some capability of `self`.
    pub fn permits(&self, other: &CapSet) -> (r: bool)
        ensures
            r == set_permits(self@, other@),
    {
        let m = other.caps.len();
        let mut j: usize = 0;
        while j < m
            invariant
                m == other@.len(),
                j <= m,
                forall|jj: int| 0 <= jj < j ==> some_permits(self@, #[trigger] other@[jj]),
            decreases m - j,
        {
            let found = any_permits(&self.caps, &other.caps[j]);
            assert(other@[j as int] == other.caps@[j as int]@);
            if !found {
                assert(!some_permits(self@, other@[j as int]));
                return false;
            }
            j = j + 1;
        }
        true
    }

    /// A copy of this set with the same members.
    pub fn duplicate(&self) -> (r: CapSet)
        ensures
            r@ == self@,
    {
        proof {
            use_type_invariant(self);
        }
        let mut caps: Vec<Cap> = Vec::new();
        let n = self.caps.len();
        let mut k: usize = 0;
        while k < n
            invariant
                n == self.caps@.len(),
                k <= n,
                models(caps@) =~= models(self.caps@.take(k as int)),
            decreases n - k,
        {
            caps.push(self.caps[k].duplicate());
            assert(models(self.caps@.take(k + 1)) =~= models(self.caps@.take(k as int)).push(self.caps@[k as int]@));
            k = k + 1;
        }
        assert(self.caps@.take(n as int) =~= self.caps@);
        CapSet { caps }
    }
}

impl Clone for CapSet {
    fn clone(&self) -> (r: CapSet)
        ensures
            r@ == self@,
    {
        self.duplicate()
    }
}

impl Default for CapSet {
    fn default() -> (r: CapSet)
        ensures
            r@ == Seq::<CapModel>::empty(),
    {
        let r = CapSet { caps: Vec::new() };
        assert(r@ =~= Seq::<CapModel>::empty());
        r
    }
}

/// The versioned capability set carried by an rcan.
#[derive(Debug, Clone, PartialEq, Eq)]
pub enum Caps {
    V0(CapSet),
}

impl View for Caps {
    type V = Seq<CapModel>;

    open spec fn view(&self) -> Seq<CapModel> {
        match self {
            Caps::V0(set) => set@,
        }
    }
}

/// The path granted by [`Caps::issue`].
pub open spec fn hello_path() -> Seq<char> {
    seq!['/', 'h', 'e', 'l', 'l', 'o']
}

impl Caps {
    /// The capability set of the given capabilities.
    pub fn new(caps: Vec<Cap>) -> (r: Caps)
        ensures
            strictly_sorted(r@),
            forall|c: CapModel| r@.contains(c) <==> models(caps@).contains(c),
    {
        Caps::V0(CapSet::new(caps))
    }

    /// Everything.
    pub fn all() -> (r: Caps)
        ensures
            r@ == seq![CapModel::All],
    {
        let set = CapSet { caps: vec![Cap::All] };
        assert(set@ =~= seq![CapModel::All]);
        Caps::V0(set)
    }

    /// Reading service information.
    pub fn info() -> (r: Caps)
        ensures
            r@ == seq![CapModel::Info],
    {
        let set = CapSet { caps: vec![Cap::Info] };
        assert(set@ =~= seq![CapModel::Info]);
        Caps::V0(set)
    }

    /// What an issuer hands out: information, issuing, and the path `/hello`.
    pub fn issue() -> (r: Caps)
        ensures
            r@ == seq![CapModel::Info, CapModel::Issue, CapModel::PathTest(hello_path())],
    {
        proof {
            reveal_strlit("/hello");
        }
        let path = String::from_str("/hello");
        assert(path@ =~= hello_path());
        let caps = vec![Cap::Info, Cap::Issue, Cap::PathTest { path }];
        assert(models(caps@) =~= seq![CapModel::Info, CapModel::Issue, CapModel::PathTest(hello_path())]);
        let set = CapSet { caps };
        Caps::V0(set)
    }

    /// Signing on the service's behalf: the issuing capability alone. That
    /// choice is this library's: signing an rcan for the service is issuing
    /// one, and nothing more is granted with it.
    pub fn sign() -> (r: Caps)
        ensures
            r@ == seq![CapModel::Issue],
    {
        let set = CapSet { caps: vec![Cap::Issue] };
        assert(set@ =~= seq![CapModel::Issue]);
        Caps::V0(set)
    }

    /// Reading the status.
    pub fn status() -> (r: Caps)
        ensures
            r@ == seq![CapModel::Status],
    {
        let set = CapSet { caps: vec![Cap::Status] };
        assert(set@ =~= seq![CapModel::Status]);
        Caps::V0(set)
    }

    /// Whether every capability of `other` is permitted by some capability of `self`.
    pub fn permits(&self, other: &Caps) -> (r: bool)
        ensures
            r == set_permits(self@, other@),
    {
        let Caps::V0(slf) = self;
        let Caps::V0(other) = other;
        slf.permits(other)
    }

    /// The underlying capability set.
    pub fn cap_set(&self) -> (r: &CapSet)
        ensures
            r@ == self@,
    {
        let Caps::V0(slf) = self;
        slf
    }

    /// A copy with the same capabilities.
    pub fn duplicate(&self) -> (r: Caps)
        ensures
            r@ == self@,
    {
        let Caps::V0(slf) = self;
        Caps::V0(slf.duplicate())
    }
}

/// Whether some capability of `caps` permits `wanted`.
fn any_permits(caps: &Vec<Cap>, wanted: &Cap) -> (r: bool)
    ensures
        r == some_permits(models(caps@), wanted@),
{
    let n = caps.len();
    let mut i: usize = 0;
    while i < n
        invariant
            n == caps@.len(),
            i <= n,
            forall|ii: int| 0 <= ii < i ==> !caps::cap_permits(#[trigger] models(caps@)[ii], wanted@),
        decreases n - i,
    {
        if caps[i].permits(wanted) {
            assert(caps::cap_permits(models(caps@)[i as int], wanted@));
            return true;
        }
        i = i + 1;
    }
    false
}

/// Where `c` belongs in the increasing sequence `v`: `Ok(i)` when `v[i]` has the
/// value of `c`, `Err(i)` when `c` belongs just before `v[i]`.
fn find_slot(v: &Vec<Cap>, c: &Cap) -> (r: Result<usize, usize>)
    requires
        strictly_sorted(models(v@)),
    ensures
        r matches Ok(i) ==> i < v@.len() && v@[i as int]@ == c@,
        r matches Err(i) ==> i <= v@.len()
            && (forall|j: int| 0 <= j < i ==> caps::cap_lt(#[trigger] models(v@)[j], c@))
            && (forall|j: int| i <= j < v@.len() ==> caps::cap_lt(c@, #[trigger] models(v@)[j])),
{
    let n = v.len();
    let mut i: usize = 0;
    while i < n
        invariant
            n == v@.len(),
            i <= n,
            strictly_sorted(models(v@)),
            forall|j: int| 0 <= j < i ==> caps::cap_lt(#[trigger] models(v@)[j], c@),
        decreases n - i,
    {
        match v[i].order(c) {
            Order::Less => {
                i = i + 1;
            },
            Order::Equal => {
                return Ok(i);
            },
            Order::Greater => {
                assert forall|j: int| i <= j < v@.len() implies caps::cap_lt(c@, #[trigger] models(v@)[j]) by {
                    if j > i {
                        caps::lemma_cap_lt_transitive(c@, models(v@)[i as int], models(v@)[j]);
                    }
                }
                return Err(i);
            },
        }
    }
    Err(i)
}

/// Adds `c` to the increasing sequence `v` unless a capability with its value
/// is already there.
fn insert_sorted(v: &mut Vec<Cap>, c: Cap)
    requires
        strictly_sorted(models(old(v)@)),
    ensures
        strictly_sorted(models(final(v)@)),
        forall|x: CapModel| models(final(v)@).contains(x) <==> (models(old(v)@).contains(x) || x == c@),
{
    match find_slot(v, &c) {
        Ok(i) => {
            assert(models(v@)[i as int] == c@);
        },
        Err(i) => {
            let ghost before = models(v@);
            let ghost cv = c@;
            v.insert(i, c);
            let ghost after = models(v@);
            assert(after =~= before.insert(i as int, cv));
            assert forall|a: int, b: int| 0 <= a < b < after.len() implies caps::cap_lt(#[trigger] after[a], #[trigger] after[b]) by {
                if b < i {
                } else if a < i && b == i {
                } else if a < i && b > i {
                    assert(after[b] == before[b - 1]);
                } else if a == i {
                    assert(after[b] == before[b - 1]);
                } else {
                    assert(after[a] == before[a - 1]);
                    assert(after[b] == before[b - 1]);
                }
            }
            assert forall|x: CapModel| after.contains(x) <==> (before.contains(x) || x == cv) by {
                if after.contains(x) {
                    let k = choose|k: int| 0 <= k < after.len() && after[k] == x;
                    if k < i {
                        assert(before[k] == x);
                    } else if k > i {
                        assert(before[k - 1] == x);
                    }
                }
                if before.contains(x) {
                    let k = choose|k: int| 0 <= k < before.len() && before[k] == x;
                    if k < i {
                        assert(after[k] == x);
                    } else {
                        assert(after[k + 1] == x);
                    }
                }
                if x == cv {
                    assert(after[i as int] == x);
                }
            }
        },
    }
}

} // verus!

verus! {

/// `humantime::DurationError`, the error of a duration that does not parse.
#[verifier::external_type_specification]
#[verifier::external_body]
pub struct ExDurationError(humantime::DurationError);

/// What `humantime::parse_duration` makes of a text: whole seconds and the
/// nanoseconds beyond them, or nothing when the text is not a duration.
pub uninterp spec fn humantime_duration(text: Seq<char>) -> Option<(u64, u32)>;

/// An ASCII digit, the only digits of a duration text.
pub open spec fn is_ascii_digit(c: char) -> bool {
    48 <= (c as u32) <= 57
}

/// The value of an ASCII digit.
pub open spec fn digit_value(c: char) -> int {
    (c as u32) - 48
}

/// A character of a unit name: an ASCII letter or `µ`.
pub open spec fn is_unit_letter(c: char) -> bool {
    let u = c as u32;
    (65 <= u <= 90) || (97 <= u <= 122) || u == 181
}

/// At least the seconds that a time span adds to a duration, where `n` is the
/// whole number of the span and `u` its unit: `(n + 1)` units for a unit of a
/// second or more (the span's fraction is below one unit), the seconds of `n`
/// units rounded up for the units below a second (whose spans carry less than
/// one more unit), and 0 for a name that is no unit (the parser refuses it
/// before it adds anything).
pub open spec fn span_bound(n: int, u: Seq<char>) -> int {
    if u == "nanos"@ || u == "nsec"@ || u == "ns"@ {
        n / 1_000_000_000 + 1
    } else if u == "usec"@ || u == "us"@ || u == "\u{b5}s"@ {
        n / 1_000_000 + 1
    } else if u == "millis"@ || u == "msec"@ || u == "ms"@ {
        n / 1000 + 1
    } else if u == "seconds"@ || u == "second"@ || u == "secs"@ || u == "sec"@ || u == "s"@ {
        n + 1
    } else if u == "minutes"@ || u == "minute"@ || u == "min"@ || u == "mins"@ || u == "m"@ {
        (n + 1) * 60
    } else if u == "hours"@ || u == "hour"@ || u == "hr"@ || u == "hrs"@ || u == "h"@ {
        (n + 1) * 3600
    } else if u == "days"@ || u == "day"@ || u == "d"@ {
        (n + 1) * 86400
    } else if u == "weeks"@ || u == "week"@ || u == "wk"@ || u == "wks"@ || u == "w"@ {
        (n + 1) * 604800
    } else if u == "months"@ || u == "month"@ || u == "M"@ {
        (n + 1) * 2_630_016
    } else if u == "years"@ || u == "year"@ || u == "yr"@ || u == "yrs"@ || u == "y"@ {
        (n + 1) * 31_557_600
    } else {
        0
    }
}

/// The sum of [`span_bound`] over the time spans of a duration text, read the
/// way `humantime::parse_duration` reads it, from a point between two spans
/// (where whitespace is skipped and a digit starts the next span). Characters
/// that the parser refuses are skipped here: the parse stops at them, so they
/// can only make the sum larger than what it adds.
pub open spec fn gap_bound(s: Seq<char>) -> int
    decreases s.len(),
{
    if s.len() == 0 {
        0
    } else if is_ascii_digit(s[0]) {
        number_bound(s.drop_first(), digit_value(s[0]))
    } else {
        gap_bound(s.drop_first())
    }
}

/// [`gap_bound`] from within the whole number of a span, `n` so far. Its
/// digits may be split by whitespace; a unit letter ends it, and so does `.`,
/// which starts a fraction. A number beyond `u64::MAX` stops the parse.
pub open spec fn number_bound(s: Seq<char>, n: int) -> int
    decreases s.len(),
{
    if s.len() == 0 {
        0
    } else if is_ascii_digit(s[0]) {
        let m = n * 10 + digit_value(s[0]);
        if m > u64::MAX {
            0
        } else {
            number_bound(s.drop_first(), m)
        }
    } else if is_unit_letter(s[0]) {
        unit_bound(s.drop_first(), n, seq![s[0]])
    } else if s[0] == '.' {
        fraction_bound(s.drop_first(), n)
    } else {
        number_bound(s.drop_first(), n)
    }
}

/// [`gap_bound`] from within the fraction of a span of whole number `n`,
/// which a unit letter ends.
pub open spec fn fraction_bound(s: Seq<char>, n: int) -> int
    decreases s.len(),
{
    if s.len() == 0 {
        0
    } else if is_unit_letter(s[0]) {
        unit_bound(s.drop_first(), n, seq![s[0]])
    } else {
        fraction_bound(s.drop_first(), n)
    }
}

/// [`gap_bound`] from within the unit name of a span of whole number `n`,
/// `u` so far. A digit (the next span) or any other character ends it.
pub open spec fn unit_bound(s: Seq<char>, n: int, u: Seq<char>) -> int
    decreases s.len(),
{
    if s.len() == 0 {
        span_bound(n, u)
    } else if is_unit_letter(s[0]) {
        unit_bound(s.drop_first(), n, u.push(s[0]))
    } else if is_ascii_digit(s[0]) {
        span_bound(n, u) + number_bound(s.drop_first(), digit_value(s[0]))
    } else {
        span_bound(n, u) + gap_bound(s.drop_first())
    }
}

/// The time spans of the text add up to at most `u64::MAX` seconds, so no
/// step of `humantime::parse_duration` reaches `u64::MAX + 1` seconds. That is
/// the one panic of the parser: a carry of exactly one second of nanoseconds
/// onto `u64::MAX` seconds, in `Duration::new`; every other overflow is an
/// error that it returns. The durations left out are those within a few units
/// of `u64::MAX` seconds.
pub open spec fn duration_within_limit(s: Seq<char>) -> bool {
    gap_bound(s) <= u64::MAX
}

proof fn lemma_bounds_nonnegative(s: Seq<char>)
    ensures
        gap_bound(s) >= 0,
        forall|n: int| n >= 0 ==> #[trigger] number_bound(s, n) >= 0,
        forall|n: int| n >= 0 ==> #[trigger] fraction_bound(s, n) >= 0,
        forall|n: int, u: Seq<char>| n >= 0 ==> #[trigger] unit_bound(s, n, u) >= 0,
    decreases s.len(),
{
    if s.len() > 0 {
        let rest = s.drop_first();
        lemma_bounds_nonnegative(rest);
        let c = s[0];
        if is_ascii_digit(c) {
            assert(digit_value(c) >= 0);
            assert(number_bound(rest, digit_value(c)) >= 0);
        }
        assert(gap_bound(s) >= 0);
        assert forall|n: int| n >= 0 implies #[trigger] number_bound(s, n) >= 0 by {
            if is_ascii_digit(c) {
                let m = n * 10 + digit_value(c);
                if m <= u64::MAX {
                    assert(number_bound(rest, m) >= 0);
                }
            } else if is_unit_letter(c) {
                assert(unit_bound(rest, n, seq![c]) >= 0);
            } else if c == '.' {
                assert(fraction_bound(rest, n) >= 0);
            } else {
                assert(number_bound(rest, n) >= 0);
            }
        }
        assert forall|n: int| n >= 0 implies #[trigger] fraction_bound(s, n) >= 0 by {
            if is_unit_letter(c) {
                assert(unit_bound(rest, n, seq![c]) >= 0);
            } else {
                assert(fraction_bound(rest, n) >= 0);
            }
        }
        assert forall|n: int, u: Seq<char>| n >= 0 implies #[trigger] unit_bound(s, n, u) >= 0 by {
            assert(span_bound(n, u) >= 0);
            if is_unit_letter(c) {
                assert(unit_bound(rest, n, u.push(c)) >= 0);
            } else if is_ascii_digit(c) {
                assert(number_bound(rest, digit_value(c)) >= 0);
            } else {
                assert(gap_bound(rest) >= 0);
            }
        }
    } else {
        assert forall|n: int, u: Seq<char>| n >= 0 implies #[trigger] unit_bound(s, n, u) >= 0 by {
            assert(span_bound(n, u) >= 0);
        }
    }
}

/// Whether `unit` is the unit name `name`.
fn is_named(unit: &str, name: &str) -> (r: bool)
    ensures
        r == (unit@ == name@),
{
    compare_strs(unit, name) == Order::Equal
}

/// [`span_bound`], computed.
fn span_bound_of(n: u64, unit: &str) -> (r: u128)
    ensures
        r == span_bound(n as int, unit@),
{
    let m = n as u128 + 1;
    if is_named(unit, "nanos") || is_named(unit, "nsec") || is_named(unit, "ns") {
        (n / 1_000_000_000) as u128 + 1
    } else if is_named(unit, "usec") || is_named(unit, "us") || is_named(unit, "\u{b5}s") {
        (n / 1_000_000) as u128 + 1
    } else if is_named(unit, "millis") || is_named(unit, "msec") || is_named(unit, "ms") {
        (n / 1000) as u128 + 1
    } else if is_named(unit, "seconds") || is_named(unit, "second") || is_named(unit, "secs")
        || is_named(unit, "sec") || is_named(unit, "s") {
        m
    } else if is_named(unit, "minutes") || is_named(unit, "minute") || is_named(unit, "min")
        || is_named(unit, "mins") || is_named(unit, "m") {
        m * 60
    } else if is_named(unit, "hours") || is_named(unit, "hour") || is_named(unit, "hr")
        || is_named(unit, "hrs") || is_named(unit, "h") {
        m * 3600
    } else if is_named(unit, "days") || is_named(unit, "day") || is_named(unit, "d") {
        m * 86400
    } else if is_named(unit, "weeks") || is_named(unit, "week") || is_named(unit, "wk")
        || is_named(unit, "wks") || is_named(unit, "w") {
        m * 604800
    } else if is_named(unit, "months") || is_named(unit, "month") || is_named(unit, "M") {
        m * 2_630_016
    } else if is_named(unit, "years") || is_named(unit, "year") || is_named(unit, "yr")
        || is_named(unit, "yrs") || is_named(unit, "y") {
        m * 31_557_600
    } else {
        0
    }
}

/// The bound of what is left of a text in a phase of its scan: between spans
/// (0), in a whole number (1), in a fraction (2) or in a unit name (3).
spec fn phase_bound(s: Seq<char>, phase: u8, n: int, unit: Seq<char>) -> int {
    if phase == 0 {
        gap_bound(s)
    } else if phase == 1 {
        number_bound(s, n)
    } else if phase == 2 {
        fraction_bound(s, n)
    } else {
        unit_bound(s, n, unit)
    }
}

/// Whether a duration text stays within [`duration_within_limit`].
pub fn duration_text_within_limit(text: &str) -> (r: bool)
    ensures
        r == duration_within_limit(text@),
{
    let len = text.unicode_len();
    let mut total: u128 = 0;
    let mut phase: u8 = 0;
    let mut n: u64 = 0;
    let mut start: usize = 0;
    let mut i: usize = 0;
    assert(text@.skip(0) =~= text@);
    while i < len
        invariant
            len == text@.len(),
            start <= i <= len,
            phase <= 3,
            total <= u64::MAX,
            gap_bound(text@) == total + phase_bound(
                text@.skip(i as int),
                phase,
                n as int,
                text@.subrange(start as int, i as int),
            ),
        decreases len - i,
    {
        let c = text.get_char(i);
        let ghost rest = text@.skip(i as int);
        let ghost unit = text@.subrange(start as int, i as int);
        assert(rest[0] == c);
        assert(rest.drop_first() =~= text@.skip(i + 1));
        assert(seq![c] =~= text@.subrange(i as int, i + 1));
        assert(unit.push(c) =~= text@.subrange(start as int, i + 1));
        let code = c as u32;
        let digit = 48 <= code && code <= 57;
        let letter = (65 <= code && code <= 90) || (97 <= code && code <= 122) || code == 181;
        if phase == 0 {
            if digit {
                phase = 1;
                n = (code - 48) as u64;
            }
        } else if phase == 1 {
            if digit {
                let d = (code - 48) as u64;
                if n > (u64::MAX - d) / 10 {
                    // The number does not fit in a `u64`: the parse stops here.
                    return true;
                }
                n = n * 10 + d;
            } else if letter {
                phase = 3;
                start = i;
            } else if code == 46 {
                phase = 2;
            }
        } else if phase == 2 {
            if letter {
                phase = 3;
                start = i;
            }
        } else if !letter {
            let span = span_bound_of(n, text.substring_char(start, i));
            if total + span > u64::MAX as u128 {
                proof {
                    let next = text@.skip(i + 1);
                    lemma_bounds_nonnegative(next);
                    assert(span == span_bound(n as int, unit));
                    if digit {
                        assert(number_bound(next, digit_value(c)) >= 0);
                    } else {
                        assert(gap_bound(next) >= 0);
                    }
                    assert(gap_bound(text@) >= total + span);
                }
                return false;
            }
            total = total + span;
            if digit {
                phase = 1;
                n = (code - 48) as u64;
            } else {
                phase = 0;
            }
        }
        i = i + 1;
    }
    assert(text@.skip(i as int).len() == 0);
    if phase == 3 {
        let span = span_bound_of(n, text.substring_char(start, i));
        total + span <= u64::MAX as u128
    } else {
        true
    }
}

/// Calls `humantime::parse_duration` and splits the `Duration` it returns into
/// whole seconds and nanoseconds. The contract claims that the outcome is a
/// function of the text alone, and (from `Duration`'s documentation) that the
/// nanoseconds stay below one second. Texts outside [`duration_within_limit`]
/// are left out: on some of them the call panics.
#[verifier::external_body]
fn parse_duration(text: &str) -> (r: Result<(u64, u32), humantime::DurationError>)
    requires
        duration_within_limit(text@),
    ensures
        r is Ok <==> humantime_duration(text@) is Some,
        r matches Ok(d) ==> humantime_duration(text@) == Some(d) && d.1 < 1_000_000_000,
{
    match humantime::parse_duration(text) {
        Ok(d) => Ok((d.as_secs(), d.subsec_nanos())),
        Err(e) => Err(e),
    }
}

/// Why an rcan cannot be issued.
#[derive(Debug, Clone, Copy, PartialEq, Eq, Structural)]
pub enum IssueError {
    /// The requested validity is not a duration.
    BadDuration,
}

/// What to put in a new rcan: its capabilities and how long it stays valid.
#[derive(Debug)]
pub struct IssuePlan {
    pub caps: Caps,
    pub secs: u64,
    pub nanos: u32,
}

/// How long an rcan stays valid when no duration is asked for: one hour.
pub const DEFAULT_VALIDITY_SECS: u64 = 3600;

/// The capabilities an issue request asks for: `status` wins, then `all`
/// (which hands out reading information only), and otherwise what an issuer
/// hands out.
pub open spec fn issue_caps_spec(status: bool, all: bool) -> Seq<CapModel> {
    if status {
        seq![CapModel::Status]
    } else if all {
        seq![CapModel::Info]
    } else {
        seq![CapModel::Info, CapModel::Issue, CapModel::PathTest(hello_path())]
    }
}

/// The capabilities an issue request gets: `Status` alone with the status
/// flag; otherwise `Info` alone with the all flag; otherwise `Info`, `Issue`
/// and a path capability on `/hello`. No request is granted `All`.
pub proof fn lemma_issue_caps_exactly(status: bool, all: bool)
    ensures
        status ==> issue_caps_spec(status, all) == seq![CapModel::Status],
        !status && all ==> issue_caps_spec(status, all) == seq![CapModel::Info],
        !status && !all ==> issue_caps_spec(status, all) == seq![
            CapModel::Info,
            CapModel::Issue,
            CapModel::PathTest("/hello"@),
        ],
        forall|i: int| 0 <= i < issue_caps_spec(status, all).len() ==> #[trigger] issue_caps_spec(status, all)[i]
            !is All,
{
    reveal_strlit("/hello");
    assert("/hello"@ =~= hello_path());
}

/// The capabilities for an issue request.
pub fn issue_caps(status: bool, all: bool) -> (r: Caps)
    ensures
        r@ == issue_caps_spec(status, all),
{
    if status {
        Caps::status()
    } else {
        let mut c = Caps::issue();
        if all {
            c = Caps::info()
        }
        c
    }
}

/// How long the rcan of an issue request stays valid, as seconds and
/// nanoseconds: the parsed `duration`, or one hour when none is given. A given
/// text must stay within [`duration_within_limit`] (test it with
/// [`duration_text_within_limit`]).
pub fn issue_duration(duration: Option<String>) -> (r: Result<(u64, u32), IssueError>)
    requires
        duration matches Some(d) ==> duration_within_limit(d@),
    ensures
        match duration {
            None => r == Ok::<(u64, u32), IssueError>((DEFAULT_VALIDITY_SECS, 0u32)),
            Some(d) => match humantime_duration(d@) {
                Some(v) => r == Ok::<(u64, u32), IssueError>(v),
                None => r == Err::<(u64, u32), IssueError>(IssueError::BadDuration),
            },
        },
{
    match duration {
        Some(d) => match parse_duration(d.as_str()) {
            Ok(v) => Ok(v),
            Err(_) => Err(IssueError::BadDuration),
        },
        None => Ok((DEFAULT_VALIDITY_SECS, 0)),
    }
}

/// The plan for an issue request once its validity is known.
pub fn plan_with_duration(status: bool, all: bool, validity: Result<(u64, u32), IssueError>) -> (r:
    Result<IssuePlan, IssueError>)
    ensures
        match validity {
            Ok(v) => r matches Ok(p) && p.caps@ == issue_caps_spec(status, all) && p.secs == v.0
                && p.nanos == v.1,
            Err(e) => r == Err::<IssuePlan, IssueError>(e),
        },
{
    match validity {
        Ok((secs, nanos)) => Ok(IssuePlan { caps: issue_caps(status, all), secs, nanos }),
        Err(e) => Err(e),
    }
}

/// The plan for an issue request: fails exactly when `duration` is given and
/// is not a duration. A given text must stay within [`duration_within_limit`].
pub fn issue_plan(status: bool, all: bool, duration: Option<String>) -> (r: Result<IssuePlan, IssueError>)
    requires
        duration matches Some(d) ==> duration_within_limit(d@),
    ensures
        match duration {
            None => r matches Ok(p) && p.caps@ == issue_caps_spec(status, all)
                && p.secs == DEFAULT_VALIDITY_SECS && p.nanos == 0,
            Some(d) => match humantime_duration(d@) {
                Some(v) => r matches Ok(p) && p.caps@ == issue_caps_spec(status, all)
                    && p.secs == v.0 && p.nanos == v.1,
                None => r == Err::<IssuePlan, IssueError>(IssueError::BadDuration),
            },
        },
{
    let validity = issue_duration(duration);
    plan_with_duration(status, all, validity)
}

} // verus!

verus! {

/// A set `a` permits a set `b` exactly when each capability of `b` is
/// permitted by some capability of `a`.
pub proof fn lemma_set_permits_exactly(a: Seq<CapModel>, b: Seq<CapModel>)
    ensures
        set_permits(a, b) == forall|c: CapModel| #[trigger] b.contains(c) ==> exists|i: int|
            0 <= i < a.len() && caps::cap_permits(#[trigger] a[i], c),
{
    if set_permits(a, b) {
        assert forall|c: CapModel| #[trigger] b.contains(c) implies exists|i: int|
            0 <= i < a.len() && caps::cap_permits(#[trigger] a[i], c) by {
            let j = choose|j: int| 0 <= j < b.len() && b[j] == c;
            assert(some_permits(a, b[j]));
        }
    } else {
        let j = choose|j: int| 0 <= j < b.len() && !some_permits(a, #[trigger] b[j]);
        assert(b.contains(b[j]));
    }
}

/// An issue request without a duration is valid for one hour.
pub proof fn lemma_default_validity_is_an_hour()
    ensures
        DEFAULT_VALIDITY_SECS == 60 * 60,
{
}

/// Permission between capability sets is transitive: what `b` permits, `a`
/// permits whenever `a` permits `b`.
pub proof fn lemma_set_permits_transitive(a: Seq<CapModel>, b: Seq<CapModel>, c: Seq<CapModel>)
    requires
        set_permits(a, b),
        set_permits(b, c),
    ensures
        set_permits(a, c),
{
    assert forall|k: int| 0 <= k < c.len() implies some_permits(a, #[trigger] c[k]) by {
        assert(some_permits(b, c[k]));
        let j = choose|j: int| 0 <= j < b.len() && caps::cap_permits(#[trigger] b[j], c[k]);
        assert(some_permits(a, b[j]));
        let i = choose|i: int| 0 <= i < a.len() && caps::cap_permits(#[trigger] a[i], b[j]);
        caps::lemma_cap_permits_transitive(a[i], b[j], c[k]);
    }
}

/// A set holding `All` permits every set.
pub proof fn lemma_all_permits_everything(a: Seq<CapModel>, b: Seq<CapModel>)
    requires
        a.contains(CapModel::All),
    ensures
        set_permits(a, b),
{
    let i = choose|i: int| 0 <= i < a.len() && a[i] == CapModel::All;
    assert forall|j: int| 0 <= j < b.len() implies some_permits(a, #[trigger] b[j]) by {
        assert(caps::cap_permits(a[i], b[j]));
    }
}

/// Adding capabilities never takes a permission away.
pub proof fn lemma_set_permits_monotone(a: Seq<CapModel>, bigger: Seq<CapModel>, b: Seq<CapModel>)
    requires
        set_permits(a, b),
        forall|i: int| 0 <= i < a.len() ==> bigger.contains(#[trigger] a[i]),
    ensures
        set_permits(bigger, b),
{
    assert forall|j: int| 0 <= j < b.len() implies some_permits(bigger, #[trigger] b[j]) by {
        assert(some_permits(a, b[j]));
        let i = choose|i: int| 0 <= i < a.len() && caps::cap_permits(#[trigger] a[i], b[j]);
        assert(bigger.contains(a[i]));
        let k = choose|k: int| 0 <= k < bigger.len() && bigger[k] == a[i];
        assert(caps::cap_permits(bigger[k], b[j]));
    }
}

/// Every set permits the empty set.
pub proof fn lemma_permits_empty(a: Seq<CapModel>)
    ensures
        set_permits(a, Seq::<CapModel>::empty()),
{
}

/// A set permits itself when each of its capabilities permits itself, that is
/// when each path it holds begins with `/`.
pub proof fn lemma_set_permits_reflexive(a: Seq<CapModel>)
    requires
        forall|i: int| 0 <= i < a.len() ==> !(#[trigger] a[i] matches CapModel::PathTest(p) && !crate::text::has_prefix(p, caps::root_path())),
    ensures
        set_permits(a, a),
{
    assert forall|j: int| 0 <= j < a.len() implies some_permits(a, #[trigger] a[j]) by {
        caps::lemma_cap_permits_reflexive(a[j]);
        assert(caps::cap_permits(a[j], a[j]));
    }
}

/// Two increasing sequences with the same members are equal: a capability set
/// is determined by its members alone, so [`CapSet::new`] depends only on the
/// set of capabilities it is given, not on their order or repetition.
pub proof fn lemma_sorted_unique(a: Seq<CapModel>, b: Seq<CapModel>)
    requires
        strictly_sorted(a),
        strictly_sorted(b),
        forall|c: CapModel| a.contains(c) <==> b.contains(c),
    ensures
        a == b,
    decreases a.len(),
{
    if a.len() == 0 {
        if b.len() > 0 {
            assert(b.contains(b[0]));
        }
        assert(a =~= b);
    } else {
        assert(a.contains(a[0]));
        let k = choose|k: int| 0 <= k < b.len() && b[k] == a[0];
        assert(b.contains(b[0]));
        let m = choose|m: int| 0 <= m < a.len() && a[m] == b[0];
        if k > 0 {
            assert(caps::cap_lt(b[0], b[k]));
            if m > 0 {
                assert(caps::cap_lt(a[0], a[m]));
                caps::lemma_cap_lt_asymmetric(a[0], b[0]);
            } else {
                caps::lemma_cap_lt_irreflexive(a[0]);
            }
        }
        assert(b[0] == a[0]);
        let a1 = a.drop_first();
        let b1 = b.drop_first();
        assert forall|c: CapModel| a1.contains(c) <==> b1.contains(c) by {
            if a1.contains(c) {
                let i = choose|i: int| 0 <= i < a1.len() && a1[i] == c;
                assert(a[i + 1] == c);
                assert(caps::cap_lt(a[0], a[i + 1]));
                assert(b.contains(c));
                let j = choose|j: int| 0 <= j < b.len() && b[j] == c;
                if j == 0 {
                    caps::lemma_cap_lt_irreflexive(c);
                }
                assert(b1[j - 1] == c);
            }
            if b1.contains(c) {
                let i = choose|i: int| 0 <= i < b1.len() && b1[i] == c;
                assert(b[i + 1] == c);
                assert(caps::cap_lt(b[0], b[i + 1]));
                assert(a.contains(c));
                let j = choose|j: int| 0 <= j < a.len() && a[j] == c;
                if j == 0 {
                    caps::lemma_cap_lt_irreflexive(c);
                }
                assert(a1[j - 1] == c);
            }
        }
        assert(strictly_sorted(a1)) by {
            assert forall|i: int, j: int| 0 <= i < j < a1.len() implies caps::cap_lt(#[trigger] a1[i], #[trigger] a1[j]) by {
                assert(a1[i] == a[i + 1] && a1[j] == a[j + 1]);
            }
        }
        assert(strictly_sorted(b1)) by {
            assert forall|i: int, j: int| 0 <= i < j < b1.len() implies caps::cap_lt(#[trigger] b1[i], #[trigger] b1[j]) by {
                assert(b1[i] == b[i + 1] && b1[j] == b[j + 1]);
            }
        }
        lemma_sorted_unique(a1, b1);
        assert(a =~= b) by {
            assert(a =~= seq![a[0]] + a1);
            assert(b =~= seq![b[0]] + b1);
        }
    }
}

} // verus!
