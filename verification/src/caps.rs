//! A single capability and the rules by which one capability permits another.

use vstd::prelude::*;

use crate::text;
use crate::text::{compare_strs, str_starts_with, Order};

verus! {

/// A capability that an rcan can grant.
#[derive(Debug, Clone, PartialEq, Eq, PartialOrd, Ord)]
pub enum Cap {
    All,
    Info,
    Issue,
    Revoke,
    Status,
    PathTest { path: String },
}

/// The mathematical value of a [`Cap`]: the path is taken as its characters.
pub enum CapModel {
    All,
    Info,
    Issue,
    Revoke,
    Status,
    PathTest(Seq<char>),
}

impl View for Cap {
    type V = CapModel;

    open spec fn view(&self) -> CapModel {
        match self {
            Cap::All => CapModel::All,
            Cap::Info => CapModel::Info,
            Cap::Issue => CapModel::Issue,
            Cap::Revoke => CapModel::Revoke,
            Cap::Status => CapModel::Status,
            Cap::PathTest { path } => CapModel::PathTest(path@),
        }
    }
}

/// The path `"/"` as characters.
pub open spec fn root_path() -> Seq<char> {
    seq!['/']
}

/// A path capability on `source` permits one on `other` when both are absolute
/// paths and `other` lies below `source` (as a string prefix).
pub open spec fn path_permits(source: Seq<char>, other: Seq<char>) -> bool {
    &&& text::has_prefix(source, root_path())
    &&& text::has_prefix(other, root_path())
    &&& text::has_prefix(other, source)
}

/// Whether capability `a` permits capability `b`.
pub open spec fn cap_permits(a: CapModel, b: CapModel) -> bool {
    match (a, b) {
        (CapModel::All, _) => true,
        (CapModel::Info, CapModel::Info) => true,
        (CapModel::Issue, CapModel::Issue) => true,
        (CapModel::Revoke, CapModel::Revoke) => true,
        (CapModel::Status, CapModel::Status) => true,
        (CapModel::PathTest(p), CapModel::PathTest(q)) => path_permits(p, q),
        (_, _) => false,
    }
}

/// The position of a variant in the declaration order of [`Cap`].
pub open spec fn cap_rank(c: CapModel) -> int {
    match c {
        CapModel::All => 0,
        CapModel::Info => 1,
        CapModel::Issue => 2,
        CapModel::Revoke => 3,
        CapModel::Status => 4,
        CapModel::PathTest(_) => 5,
    }
}

/// The order of `Cap`'s derived `Ord`: by variant, then by path.
pub open spec fn cap_lt(a: CapModel, b: CapModel) -> bool {
    cap_rank(a) < cap_rank(b) || match (a, b) {
        (CapModel::PathTest(p), CapModel::PathTest(q)) => text::chars_lt(p, q),
        (_, _) => false,
    }
}

pub proof fn lemma_cap_lt_irreflexive(a: CapModel)
    ensures
        !cap_lt(a, a),
{
    if let CapModel::PathTest(p) = a {
        text::lemma_chars_lt_irreflexive(p);
    }
}

pub proof fn lemma_cap_lt_transitive(a: CapModel, b: CapModel, c: CapModel)
    requires
        cap_lt(a, b),
        cap_lt(b, c),
    ensures
        cap_lt(a, c),
{
    if let (CapModel::PathTest(p), CapModel::PathTest(q), CapModel::PathTest(r)) = (a, b, c) {
        text::lemma_chars_lt_transitive(p, q, r);
    }
}

pub proof fn lemma_cap_lt_asymmetric(a: CapModel, b: CapModel)
    requires
        cap_lt(a, b),
    ensures
        !cap_lt(b, a),
{
    if cap_lt(b, a) {
        lemma_cap_lt_transitive(a, b, a);
        lemma_cap_lt_irreflexive(a);
    }
}

/// `path_permits` is transitive: a delegation below a path stays below it.
pub proof fn lemma_path_permits_transitive(p: Seq<char>, q: Seq<char>, r: Seq<char>)
    requires
        path_permits(p, q),
        path_permits(q, r),
    ensures
        path_permits(p, r),
{
    assert(r.subrange(0, p.len() as int) =~= r.subrange(0, q.len() as int).subrange(0, p.len() as int));
}

impl Cap {
    /// Whether `self` permits `other`.
    pub fn permits(&self, other: &Cap) -> (r: bool)
        ensures
            r == cap_permits(self@, other@),
    {
        match (self, other) {
            (Cap::All, _) => true,
            (Cap::Info, Cap::Info) => true,
            (Cap::Issue, Cap::Issue) => true,
            (Cap::Revoke, Cap::Revoke) => true,
            (Cap::Status, Cap::Status) => true,
            (Cap::PathTest { path }, Cap::PathTest { path: otherpath }) => {
                self.path_check(path, otherpath)
            },
            (_, _) => false,
        }
    }

    /// Whether a path capability on `source` permits one on `other`: both must
    /// begin with `/`, and `other` must begin with `source`.
    pub fn path_check(&self, source: &String, other: &String) -> (r: bool)
        ensures
            r == path_permits(source@, other@),
    {
        proof {
            reveal_strlit("/");
        }
        assert("/"@ =~= root_path());
        if !str_starts_with(source.as_str(), "/") {
            return false;
        }
        if !str_starts_with(other.as_str(), "/") {
            return false;
        }
        if str_starts_with(other.as_str(), source.as_str()) {
            return true;
        }
        false
    }

    /// Compares two capabilities in the order of `Cap`'s derived `Ord`.
    pub fn order(&self, other: &Cap) -> (r: Order)
        ensures
            (r == Order::Less) == cap_lt(self@, other@),
            (r == Order::Greater) == cap_lt(other@, self@),
            (r == Order::Equal) == (self@ == other@),
    {
        match (self, other) {
            (Cap::PathTest { path }, Cap::PathTest { path: otherpath }) => {
                compare_strs(path.as_str(), otherpath.as_str())
            },
            _ => {
                let a = self.rank();
                let b = other.rank();
                if a < b {
                    Order::Less
                } else if b < a {
                    Order::Greater
                } else {
                    Order::Equal
                }
            },
        }
    }

    fn rank(&self) -> (r: u8)
        ensures
            r == cap_rank(self@),
    {
        match self {
            Cap::All => 0,
            Cap::Info => 1,
            Cap::Issue => 2,
            Cap::Revoke => 3,
            Cap::Status => 4,
            Cap::PathTest { .. } => 5,
        }
    }

    /// A copy of this capability with the same value.
    pub fn duplicate(&self) -> (r: Cap)
        ensures
            r@ == self@,
    {
        match self {
            Cap::All => Cap::All,
            Cap::Info => Cap::Info,
            Cap::Issue => Cap::Issue,
            Cap::Revoke => Cap::Revoke,
            Cap::Status => Cap::Status,
            Cap::PathTest { path } => Cap::PathTest { path: path.clone() },
        }
    }
}

/// Every capability permits itself, except a path capability on a path that
/// does not begin with `/`.
pub proof fn lemma_cap_permits_reflexive(a: CapModel)
    ensures
        cap_permits(a, a) == !(a matches CapModel::PathTest(p) && !text::has_prefix(p, root_path())),
{
    if let CapModel::PathTest(p) = a {
        assert(p.subrange(0, p.len() as int) =~= p);
    }
}

/// What a capability permits: `All` permits every capability; a path
/// capability on `p` permits a path capability on `q` when both paths begin
/// with `/` and `q` begins with `p`; any other capability permits exactly
/// itself and nothing else.
pub proof fn lemma_cap_permits_exactly(a: CapModel, b: CapModel)
    ensures
        cap_permits(a, b) == (a is All || (a !is PathTest && a == b) || (a matches CapModel::PathTest(p)
            && b matches CapModel::PathTest(q) && p.len() >= 1 && p[0] == '/' && q.len() >= p.len()
            && q[0] == '/' && forall|i: int| 0 <= i < p.len() ==> #[trigger] q[i] == p[i])),
{
    if let (CapModel::PathTest(p), CapModel::PathTest(q)) = (a, b) {
        if p.len() >= 1 && q.len() >= p.len() {
            assert(p.subrange(0, 1) =~= seq![p[0]]);
            assert(q.subrange(0, 1) =~= seq![q[0]]);
            if forall|i: int| 0 <= i < p.len() ==> #[trigger] q[i] == p[i] {
                assert(q.subrange(0, p.len() as int) =~= p);
            }
            if q.subrange(0, p.len() as int) == p {
                assert forall|i: int| 0 <= i < p.len() implies #[trigger] q[i] == p[i] by {
                    assert(q.subrange(0, p.len() as int)[i] == q[i]);
                }
            }
        }
        if q.len() >= 1 {
            assert(q.subrange(0, 1) =~= seq![q[0]]);
        }
        if p.len() >= 1 {
            assert(p.subrange(0, 1) =~= seq![p[0]]);
        }
    }
}

/// Permission between capabilities is transitive.
pub proof fn lemma_cap_permits_transitive(a: CapModel, b: CapModel, c: CapModel)
    requires
        cap_permits(a, b),
        cap_permits(b, c),
    ensures
        cap_permits(a, c),
{
    if let (CapModel::PathTest(p), CapModel::PathTest(q), CapModel::PathTest(r)) = (a, b, c) {
        lemma_path_permits_transitive(p, q, r);
    }
}

} // verus!
