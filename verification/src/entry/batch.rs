//! Verifying a run of entries of one feed at once.

use crate::entry::decode::decode;
use crate::entry::parse_entry;
use crate::entry::verify::verify;
use crate::entry::verify::verify_outcome;
use crate::entry::verify::Error;
use crate::lipmaa::is_lipmaa_required;
use crate::lipmaa::is_lipmaa_required_spec;
use crate::lipmaa::lipmaa;
use crate::lipmaa::lipmaa_spec;
use vstd::prelude::*;

verus! {

/// The entry that the skip link of entry `i` of a run points to, where entry
/// `i` needs a skip link of its own and the run reaches back that far. The
/// entries of a run have consecutive sequence numbers, so the entry stands as
/// many places before entry `i` as the skip link jumps.
pub open spec fn lipmaa_in_run(entries: Seq<&[u8]>, i: int) -> Option<Seq<u8>> {
    match parse_entry(entries[i]@) {
        Err(_) => None,
        Ok(e) => {
            let jump = e.seq_num - lipmaa_spec(e.seq_num as nat);
            if e.seq_num > 1 && is_lipmaa_required_spec(e.seq_num as nat) && jump <= i {
                Some(entries[i - jump]@)
            } else {
                None
            }
        },
    }
}

/// The entry before entry `i` of a run, where there is one.
pub open spec fn backlink_in_run(entries: Seq<&[u8]>, i: int) -> Option<Seq<u8>> {
    if i > 0 {
        Some(entries[i - 1]@)
    } else {
        None
    }
}

/// What verifying entry `i` of a run comes to: it is verified with no
/// payload, with the entry before it in the run and with the entry of the run
/// that its skip link points to.
pub open spec fn outcome_in_run(entries: Seq<&[u8]>, i: int) -> Result<(), Error> {
    verify_outcome(entries[i]@, None, lipmaa_in_run(entries, i), backlink_in_run(entries, i))
}

/// Verifies a run of entries of one feed, given oldest first and with
/// consecutive sequence numbers. Each entry is verified against the entry
/// before it in the run and, where it needs a skip link of its own, against
/// the entry of the run that the skip link points to.
///
/// Fails at the first entry that is not accepted, with the place of that
/// entry in the run and the reason.
pub fn verify_batch(entries: &[&[u8]]) -> (r: Result<(), (usize, Error)>)
    ensures
        match r {
            Ok(_) => forall|i: int| 0 <= i < entries@.len() ==> outcome_in_run(entries@, i) is Ok,
            Err((at, error)) => {
                &&& at < entries@.len()
                &&& outcome_in_run(entries@, at as int) == Err::<(), Error>(error)
                &&& forall|i: int| 0 <= i < at ==> outcome_in_run(entries@, i) is Ok
            },
        },
{
    let mut at: usize = 0;
    while at < entries.len()
        invariant
            at <= entries@.len(),
            forall|i: int| 0 <= i < at ==> outcome_in_run(entries@, i) is Ok,
        decreases entries@.len() - at,
    {
        let bytes = entries[at];
        let entry = match decode(bytes) {
            Err(source) => {
                return Err((at, Error::DecodeEntry { source }));
            },
            Ok(entry) => entry,
        };
        let backlink = if at > 0 {
            Some(entries[at - 1])
        } else {
            None
        };
        let mut lipmaa_entry: Option<&[u8]> = None;
        if entry.seq_num > 1 && is_lipmaa_required(entry.seq_num) {
            let jump = entry.seq_num - lipmaa(entry.seq_num);
            if jump <= at as u64 {
                lipmaa_entry = Some(entries[at - jump as usize]);
            }
        }
        match verify(bytes, None, lipmaa_entry, backlink) {
            Err(error) => {
                return Err((at, error));
            },
            Ok(_) => {},
        }
        at += 1;
    }
    Ok(())
}

} // verus!
