//! Segment files: `<N>.q`, where `N` is the segment's sequence number. The
//! newest segment is the one with the greatest number.
use vstd::prelude::*;

use crate::decimal::{
    decimal_digits, is_digit, lemma_decimal_round_trip, parse_u64, parse_u64_spec, push_decimal,
    unsigned_body,
};
use crate::error::RecoveryError;

verus! {

/// A file name with the segment extension: something before a final `.q`.
pub open spec fn is_segment_file(name: Seq<u8>) -> bool {
    name.len() >= 3 && name[name.len() - 2] == 46 && name[name.len() - 1] == 113
}

/// The file name without its extension.
pub open spec fn segment_stem(name: Seq<u8>) -> Seq<u8> {
    name.subrange(0, name.len() - 2)
}

/// The sequence number that a segment file's name carries, if it is one.
pub open spec fn segment_number(name: Seq<u8>) -> Option<u64> {
    if is_segment_file(name) {
        parse_u64_spec(segment_stem(name))
    } else {
        None
    }
}

/// A file with the segment extension whose stem is not a sequence number.
pub open spec fn is_malformed_segment(name: Seq<u8>) -> bool {
    is_segment_file(name) && parse_u64_spec(segment_stem(name)) is None
}

pub open spec fn has_malformed_segment(names: Seq<Seq<u8>>) -> bool {
    exists|i: int| 0 <= i < names.len() && #[trigger] is_malformed_segment(names[i])
}

/// The greatest sequence number among the names, or zero where none is a
/// segment file.
pub open spec fn greatest_segment(names: Seq<Seq<u8>>) -> nat
    decreases names.len(),
{
    if names.len() == 0 {
        0
    } else {
        let rest = greatest_segment(names.drop_last());
        match segment_number(names.last()) {
            Some(v) => if v > rest {
                v as nat
            } else {
                rest
            },
            None => rest,
        }
    }
}

/// The name of segment `n`'s file.
pub open spec fn segment_file_name_spec(n: nat) -> Seq<u8> {
    decimal_digits(n) + seq![46u8, 113u8]
}

/// `greatest_segment` is the least bound of the sequence numbers present, or
/// zero.
pub proof fn lemma_greatest_segment_bounds(names: Seq<Seq<u8>>)
    ensures
        greatest_segment(names) <= u64::MAX,
        forall|i: int|
            0 <= i < names.len() && (#[trigger] segment_number(names[i])) is Some ==> segment_number(
                names[i],
            )->0 <= greatest_segment(names),
        greatest_segment(names) == 0 || exists|i: int|
            0 <= i < names.len() && #[trigger] segment_number(names[i]) == Some(
                greatest_segment(names) as u64,
            ),
    decreases names.len(),
{
    if names.len() > 0 {
        let rest = names.drop_last();
        lemma_greatest_segment_bounds(rest);
        assert forall|i: int|
            0 <= i < names.len() && (#[trigger] segment_number(names[i])) is Some implies segment_number(
                names[i],
            )->0 <= greatest_segment(names) by {
            if i < rest.len() {
                assert(segment_number(rest[i]) is Some);
            }
        }
        if greatest_segment(names) != 0 {
            if greatest_segment(names) == greatest_segment(rest) {
                let j = choose|j: int|
                    0 <= j < rest.len() && #[trigger] segment_number(rest[j]) == Some(
                        greatest_segment(rest) as u64,
                    );
                assert(segment_number(names[j]) == Some(greatest_segment(names) as u64));
            } else {
                assert(segment_number(names[names.len() - 1]) == Some(
                    greatest_segment(names) as u64,
                ));
            }
        }
    }
}

proof fn lemma_same_members(a: Seq<Seq<u8>>, b: Seq<Seq<u8>>, i: int)
    requires
        a.to_set() == b.to_set(),
        0 <= i < a.len(),
    ensures
        exists|j: int| 0 <= j < b.len() && b[j] == a[i],
{
    assert(a.contains(a[i]));
    assert(a.to_set().contains(a[i]));
    assert(b.to_set().contains(a[i]));
    assert(b.contains(a[i]));
}

/// The newest segment does not depend on the order in which the directory
/// lists its files: two listings of the same names agree on whether a
/// malformed segment name is present, and on the greatest sequence number.
pub proof fn lemma_newest_segment_ignores_order(a: Seq<Seq<u8>>, b: Seq<Seq<u8>>)
    requires
        a.to_set() == b.to_set(),
    ensures
        has_malformed_segment(a) == has_malformed_segment(b),
        greatest_segment(a) == greatest_segment(b),
{
    lemma_greatest_segment_bounds(a);
    lemma_greatest_segment_bounds(b);
    if has_malformed_segment(a) {
        let i = choose|i: int| 0 <= i < a.len() && #[trigger] is_malformed_segment(a[i]);
        lemma_same_members(a, b, i);
        let j = choose|j: int| 0 <= j < b.len() && b[j] == a[i];
        assert(is_malformed_segment(b[j]));
    }
    if has_malformed_segment(b) {
        let i = choose|i: int| 0 <= i < b.len() && #[trigger] is_malformed_segment(b[i]);
        lemma_same_members(b, a, i);
        let j = choose|j: int| 0 <= j < a.len() && a[j] == b[i];
        assert(is_malformed_segment(a[j]));
    }
    let ga = greatest_segment(a);
    let gb = greatest_segment(b);
    if ga != 0 {
        let i = choose|i: int| 0 <= i < a.len() && #[trigger] segment_number(a[i]) == Some(ga as u64);
        lemma_same_members(a, b, i);
        let j = choose|j: int| 0 <= j < b.len() && b[j] == a[i];
        assert(segment_number(b[j]) is Some);
    }
    if gb != 0 {
        let i = choose|i: int| 0 <= i < b.len() && #[trigger] segment_number(b[i]) == Some(gb as u64);
        lemma_same_members(b, a, i);
        let j = choose|j: int| 0 <= j < a.len() && a[j] == b[i];
        assert(segment_number(a[j]) is Some);
    }
}

/// The file that `segment_file_name` names carries the number it was made
/// from.
pub proof fn lemma_segment_file_name_round_trip(n: u64)
    ensures
        segment_number(segment_file_name_spec(n as nat)) == Some(n),
{
    let name = segment_file_name_spec(n as nat);
    let d = decimal_digits(n as nat);
    lemma_decimal_round_trip(n as nat);
    assert(segment_stem(name) =~= d);
    assert(is_digit(d[0]));
    assert(unsigned_body(d) == d);
}

/// The sequence number in `name`, if it names a segment file; an error if it
/// has the segment extension and a stem that is no number.
pub fn segment_number_of(name: &[u8]) -> (r: Result<Option<u64>, ()>)
    ensures
        r is Err <==> is_malformed_segment(name@),
        r is Ok ==> r->Ok_0 == segment_number(name@),
{
    let n = name.len();
    if n >= 3 && name[n - 2] == 46 && name[n - 1] == 113 {
        match parse_u64(name, 0, n - 2) {
            Some(v) => Ok(Some(v)),
            None => Err(()),
        }
    } else {
        Ok(None)
    }
}

/// Finds the newest segment among the file names of a queue directory: the
/// greatest sequence number, or zero when no segment file is present. A file
/// with the segment extension whose stem is no number stops the scan with
/// `MalformedSegmentName`, at the first such name.
pub fn newest_segment(names: &Vec<Vec<u8>>) -> (r: Result<u64, RecoveryError>)
    ensures
        r is Ok <==> !has_malformed_segment(names.deep_view()),
        r is Ok ==> r->Ok_0 as nat == greatest_segment(names.deep_view()),
        r is Err ==> (match r->Err_0 {
            RecoveryError::MalformedSegmentName { index } => index < names.len()
                && is_malformed_segment(names.deep_view()[index as int]) && forall|j: int|
                0 <= j < index ==> !#[trigger] is_malformed_segment(names.deep_view()[j]),
            _ => false,
        }),
{
    let ghost all = names.deep_view();
    let mut greatest: u64 = 0;
    let mut i: usize = 0;
    while i < names.len()
        invariant
            i <= names.len(),
            all == names.deep_view(),
            greatest as nat == greatest_segment(all.take(i as int)),
            forall|j: int| 0 <= j < i ==> !#[trigger] is_malformed_segment(all[j]),
        decreases names.len() - i,
    {
        let name = &names[i];
        assert(all[i as int] == name@);
        assert(all.take(i as int + 1).drop_last() =~= all.take(i as int));
        match segment_number_of(name.as_slice()) {
            Err(()) => {
                return Err(RecoveryError::MalformedSegmentName { index: i });
            },
            Ok(Some(v)) => {
                if v > greatest {
                    greatest = v;
                }
            },
            Ok(None) => {},
        }
        i = i + 1;
    }
    assert(all.take(i as int) =~= all);
    Ok(greatest)
}

/// The file name of segment `n`: its number in decimal, then `.q`.
pub fn segment_file_name(n: u64) -> (r: Vec<u8>)
    ensures
        r@ == segment_file_name_spec(n as nat),
{
    let mut r: Vec<u8> = Vec::new();
    push_decimal(n, &mut r);
    r.push(46);
    r.push(113);
    assert(r@ =~= segment_file_name_spec(n as nat));
    r
}

} // verus!
