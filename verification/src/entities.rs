//! Sides and player identifiers.
//!
//! A player is named by a string. Identifiers that begin with
//! [`XPLAYERID_START`] are reserved: they name no player of a roster, and
//! nothing is ever credited to them.

use vstd::prelude::*;

verus! {

/// The left side.
pub const SIDE_L: char = 'l';

/// The right side.
pub const SIDE_R: char = 'r';

/// Every reserved identifier begins with this.
pub const XPLAYERID_START: &'static str = "XX";

/// The identifier of an action whose player is not known yet.
pub const XPLAYERID_UNKNOWN: &'static str = "XXUnknown";

/// The beginning of the identifier given to a goal that the other side
/// brought about.
pub const XPLAYERID_OOPS_OTHERSIDE_START: &'static str = "XXOops";

/// Whether `side` names one of the two sides.
pub open spec fn spec_is_side(side: char) -> bool {
    side == SIDE_L || side == SIDE_R
}

/// What [`XPLAYERID_START`] holds.
pub open spec fn spec_xplayerid_start() -> Seq<char> {
    seq!['X', 'X']
}

/// What [`XPLAYERID_UNKNOWN`] holds.
pub open spec fn spec_xplayerid_unknown() -> Seq<char> {
    seq!['X', 'X', 'U', 'n', 'k', 'n', 'o', 'w', 'n']
}

/// What [`XPLAYERID_OOPS_OTHERSIDE_START`] holds.
pub open spec fn spec_xplayerid_oops_start() -> Seq<char> {
    seq!['X', 'X', 'O', 'o', 'p', 's']
}

/// Whether `id` is a reserved identifier.
pub open spec fn spec_is_xplayerid(id: Seq<char>) -> bool {
    spec_xplayerid_start().is_prefix_of(id)
}

/// The reserved identifier that marks `id` as the player of a goal that the
/// other side brought about: the marker, a hyphen, then `id`.
pub open spec fn spec_oops_otherside_id(id: Seq<char>) -> Seq<char> {
    spec_xplayerid_oops_start() + seq!['-'] + id
}

/// The three named strings hold what their spec functions say.
pub proof fn lemma_xplayerid_strings()
    ensures
        XPLAYERID_START@ == spec_xplayerid_start(),
        XPLAYERID_UNKNOWN@ == spec_xplayerid_unknown(),
        XPLAYERID_OOPS_OTHERSIDE_START@ == spec_xplayerid_oops_start(),
{
    reveal_strlit("XX");
    reveal_strlit("XXUnknown");
    reveal_strlit("XXOops");
    assert(XPLAYERID_START@ =~= spec_xplayerid_start());
    assert(XPLAYERID_UNKNOWN@ =~= spec_xplayerid_unknown());
    assert(XPLAYERID_OOPS_OTHERSIDE_START@ =~= spec_xplayerid_oops_start());
}

/// The unknown player's identifier is reserved, and so is every identifier
/// made for a goal that the other side brought about.
pub proof fn lemma_reserved_ids(id: Seq<char>)
    ensures
        spec_is_xplayerid(spec_xplayerid_unknown()),
        spec_is_xplayerid(spec_oops_otherside_id(id)),
{
    let start = spec_xplayerid_start();
    assert(spec_xplayerid_unknown().subrange(0, start.len() as int) =~= start);
    assert(spec_oops_otherside_id(id).subrange(0, start.len() as int) =~= start);
}

/// Whether `side` names one of the two sides.
pub fn is_side(side: char) -> (b: bool)
    ensures
        b == spec_is_side(side),
{
    side == SIDE_L || side == SIDE_R
}

/// Whether `s` begins with `prefix`.
pub fn starts_with(s: &str, prefix: &str) -> (b: bool)
    ensures
        b == prefix@.is_prefix_of(s@),
{
    let n = prefix.unicode_len();
    if s.unicode_len() < n {
        return false;
    }
    let mut i: usize = 0;
    while i < n
        invariant
            i <= n,
            n == prefix@.len(),
            n <= s@.len(),
            forall|j: int| 0 <= j < i ==> s@[j] == prefix@[j],
        decreases n - i,
    {
        if s.get_char(i) != prefix.get_char(i) {
            assert(s@.subrange(0, n as int)[i as int] != prefix@[i as int]);
            return false;
        }
        i += 1;
    }
    assert(s@.subrange(0, n as int) =~= prefix@);
    true
}

/// Whether two strings hold the same text.
pub fn str_eq(a: &str, b: &str) -> (r: bool)
    ensures
        r == (a@ == b@),
{
    let x = a.as_bytes();
    let y = b.as_bytes();
    proof {
        vstd::utf8::encode_utf8_decode_utf8(a@);
        vstd::utf8::encode_utf8_decode_utf8(b@);
    }
    if x.len() != y.len() {
        return false;
    }
    let n = x.len();
    let mut i: usize = 0;
    while i < n
        invariant
            i <= n,
            n == x@.len(),
            n == y@.len(),
            x@ == vstd::utf8::encode_utf8(a@),
            y@ == vstd::utf8::encode_utf8(b@),
            forall|j: int| 0 <= j < i ==> x@[j] == y@[j],
        decreases n - i,
    {
        if x[i] != y[i] {
            return false;
        }
        i += 1;
    }
    assert(x@ =~= y@);
    true
}

/// Whether `id` is a reserved identifier.
pub fn is_xplayerid(id: &str) -> (b: bool)
    ensures
        b == spec_is_xplayerid(id@),
{
    proof {
        lemma_xplayerid_strings();
    }
    starts_with(id, XPLAYERID_START)
}

/// The reserved identifier that marks `id` as the player of a goal that the
/// other side brought about.
pub fn oops_otherside_id(id: &str) -> (r: String)
    ensures
        r@ == spec_oops_otherside_id(id@),
        spec_is_xplayerid(r@),
{
    proof {
        lemma_xplayerid_strings();
        lemma_reserved_ids(id@);
        reveal_strlit("-");
    }
    let r = String::from_str(XPLAYERID_OOPS_OTHERSIDE_START).concat("-").concat(id);
    assert(r@ =~= spec_oops_otherside_id(id@));
    r
}

} // verus!
