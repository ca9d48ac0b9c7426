//! What the forwarding rules of an isolated guest must look like.
use crate::bytes::push_all;
use crate::harness::guest_exec::{self, contains_marker};
use vstd::prelude::*;
use vstd::string::StringSliceAdditionalSpecFns;

verus! {

pub const NEWLINE: u8 = 10;

/// Why a ruleset does not isolate a guest.
#[derive(Debug, Copy, Clone, PartialEq, Eq, Structural)]
pub enum RulesetFault {
    /// The guest has no chain of its own.
    ChainMissing,
    /// There is no forward hook that drops by default.
    ForwardDropMissing,
    /// Established and related traffic is not accepted.
    EstablishedMissing,
    /// The allowed destination is not accepted.
    AllowMissing,
    /// The allowed destination is accepted before established traffic is.
    AllowFirst,
    /// The denied destination occurs.
    DeniedListed,
}

/// The lines of a text.
pub open spec fn lines(s: Seq<u8>) -> Seq<Seq<u8>>
    decreases s.len(),
{
    if s.len() == 0 {
        seq![Seq::empty()]
    } else {
        let before = lines(s.drop_last());
        if s.last() == NEWLINE {
            before.push(Seq::empty())
        } else {
            before.drop_last().push(before.last().push(s.last()))
        }
    }
}

/// The line accepts established and related traffic.
pub open spec fn accepts_established() -> spec_fn(Seq<u8>) -> bool {
    |line: Seq<u8>|
        {
            &&& guest_exec::holds(line, "ct state".spec_bytes())
            &&& guest_exec::holds(line, "established".spec_bytes())
            &&& guest_exec::holds(line, "related".spec_bytes())
            &&& guest_exec::holds(line, "accept".spec_bytes())
        }
}

/// The line accepts HTTPS traffic to the destination.
pub open spec fn accepts(dest: Seq<u8>) -> spec_fn(Seq<u8>) -> bool {
    |line: Seq<u8>|
        {
            &&& guest_exec::holds(line, dest)
            &&& guest_exec::holds(line, "tcp dport 443".spec_bytes())
            &&& guest_exec::holds(line, "accept".spec_bytes())
        }
}

/// Line `i` is the first of which `p` holds.
pub open spec fn is_first(l: Seq<Seq<u8>>, p: spec_fn(Seq<u8>) -> bool, i: int) -> bool {
    &&& 0 <= i < l.len()
    &&& p(l[i])
    &&& forall|j: int| 0 <= j < i ==> !p(#[trigger] l[j])
}

/// There is a line of which `p` holds.
pub open spec fn has_line(l: Seq<Seq<u8>>, p: spec_fn(Seq<u8>) -> bool) -> bool {
    exists|i: int| is_first(l, p, i)
}

/// The first line of which `p` holds.
pub open spec fn first_line(l: Seq<Seq<u8>>, p: spec_fn(Seq<u8>) -> bool) -> int {
    choose|i: int| is_first(l, p, i)
}

/// Whether a ruleset isolates the guest whose chain is `chain`: what is forwarded is dropped
/// unless it belongs to established traffic or goes to the allowed destination.
pub open spec fn ruleset_verdict(
    ruleset: Seq<u8>,
    chain: Seq<u8>,
    allowed: Seq<u8>,
    denied: Seq<u8>,
) -> Result<(), RulesetFault> {
    let l = lines(ruleset);
    if !guest_exec::holds(ruleset, "chain ".spec_bytes() + chain) {
        Err(RulesetFault::ChainMissing)
    } else if !guest_exec::holds(ruleset, "hook forward".spec_bytes()) || !guest_exec::holds(
        ruleset,
        "policy drop".spec_bytes(),
    ) {
        Err(RulesetFault::ForwardDropMissing)
    } else if !has_line(l, accepts_established()) {
        Err(RulesetFault::EstablishedMissing)
    } else if !has_line(l, accepts(allowed)) {
        Err(RulesetFault::AllowMissing)
    } else if first_line(l, accepts_established()) >= first_line(l, accepts(allowed)) {
        Err(RulesetFault::AllowFirst)
    } else if guest_exec::holds(ruleset, denied) {
        Err(RulesetFault::DeniedListed)
    } else {
        Ok(())
    }
}

/// Byte strings, as sequences.
pub open spec fn views(v: Seq<Vec<u8>>) -> Seq<Seq<u8>> {
    Seq::new(v.len(), |i: int| v[i]@)
}

/// Splits a text into its lines.
pub fn split_lines(s: &[u8]) -> (v: Vec<Vec<u8>>)
    ensures
        views(v@) == lines(s@),
{
    let mut v: Vec<Vec<u8>> = Vec::new();
    let mut line: Vec<u8> = Vec::new();
    let mut i: usize = 0;
    assert(s@.take(0) =~= Seq::empty());
    assert(views(v@).push(line@) =~= lines(s@.take(0)));
    while i < s.len()
        invariant
            i <= s@.len(),
            views(v@).push(line@) == lines(s@.take(i as int)),
        decreases s@.len() - i,
    {
        let b: u8 = s[i];
        let ghost before = lines(s@.take(i as int));
        proof {
            assert(s@.take(i + 1).drop_last() =~= s@.take(i as int));
            assert(s@.take(i + 1).last() == b);
            assert(before.drop_last() =~= views(v@));
        }
        if b == NEWLINE {
            v.push(line);
            line = Vec::new();
            assert(line@ =~= Seq::empty());
            assert(views(v@) =~= before);
        } else {
            line.push(b);
        }
        i += 1;
    }
    assert(s@.take(i as int) =~= s@);
    v.push(line);
    assert(views(v@) =~= lines(s@));
    v
}

fn line_accepts_established(line: &[u8]) -> (r: bool)
    ensures
        r == accepts_established()(line@),
{
    contains_marker(line, "ct state".as_bytes()) && contains_marker(line, "established".as_bytes())
        && contains_marker(line, "related".as_bytes()) && contains_marker(line, "accept".as_bytes())
}

fn line_accepts(line: &[u8], dest: &[u8]) -> (r: bool)
    ensures
        r == accepts(dest@)(line@),
{
    contains_marker(line, dest) && contains_marker(line, "tcp dport 443".as_bytes())
        && contains_marker(line, "accept".as_bytes())
}

/// The first line that accepts HTTPS traffic to `dest`, or with no `dest` established traffic.
fn first_accept(v: &Vec<Vec<u8>>, dest: Option<&[u8]>) -> (r: Option<usize>)
    ensures
        ({
            let p = match dest {
                Some(d) => accepts(d@),
                None => accepts_established(),
            };
            match r {
                Some(i) => is_first(views(v@), p, i as int),
                None => !has_line(views(v@), p),
            }
        }),
{
    let ghost p = match dest {
        Some(d) => accepts(d@),
        None => accepts_established(),
    };
    let mut i: usize = 0;
    while i < v.len()
        invariant
            i <= v@.len(),
            p == (match dest {
                Some(d) => accepts(d@),
                None => accepts_established(),
            }),
            forall|j: int| 0 <= j < i ==> !p(#[trigger] views(v@)[j]),
        decreases v@.len() - i,
    {
        let found = match dest {
            Some(d) => line_accepts(v[i].as_slice(), d),
            None => line_accepts_established(v[i].as_slice()),
        };
        assert(views(v@)[i as int] == v[i as int]@);
        if found {
            return Some(i);
        }
        i += 1;
    }
    None
}

proof fn lemma_first_is_one(l: Seq<Seq<u8>>, p: spec_fn(Seq<u8>) -> bool, i: int)
    requires
        is_first(l, p, i),
    ensures
        has_line(l, p),
        first_line(l, p) == i,
{
    let k = first_line(l, p);
    assert(is_first(l, p, k));
    if k < i {
        assert(!p(l[k]));
    }
    if i < k {
        assert(!p(l[i]));
    }
}

/// Checks that a ruleset, as the host lists it, isolates a guest.
pub fn assert_ruleset(ruleset: &[u8], chain: &[u8], allowed: &[u8], denied: &[u8]) -> (r: Result<
    (),
    RulesetFault,
>)
    ensures
        r == ruleset_verdict(ruleset@, chain@, allowed@, denied@),
{
    let mut own_chain: Vec<u8> = Vec::new();
    push_all(&mut own_chain, "chain ".as_bytes());
    push_all(&mut own_chain, chain);
    assert(own_chain@ =~= "chain ".spec_bytes() + chain@);
    if !contains_marker(ruleset, own_chain.as_slice()) {
        return Err(RulesetFault::ChainMissing);
    }
    if !contains_marker(ruleset, "hook forward".as_bytes()) || !contains_marker(
        ruleset,
        "policy drop".as_bytes(),
    ) {
        return Err(RulesetFault::ForwardDropMissing);
    }
    let v = split_lines(ruleset);
    let established: usize = match first_accept(&v, None) {
        Some(i) => i,
        None => {
            return Err(RulesetFault::EstablishedMissing);
        },
    };
    let allow: usize = match first_accept(&v, Some(allowed)) {
        Some(i) => i,
        None => {
            proof {
                lemma_first_is_one(lines(ruleset@), accepts_established(), established as int);
            }
            return Err(RulesetFault::AllowMissing);
        },
    };
    proof {
        lemma_first_is_one(lines(ruleset@), accepts_established(), established as int);
        lemma_first_is_one(lines(ruleset@), accepts(allowed@), allow as int);
    }
    if established >= allow {
        return Err(RulesetFault::AllowFirst);
    }
    if contains_marker(ruleset, denied) {
        return Err(RulesetFault::DeniedListed);
    }
    Ok(())
}

} // verus!
