//! Per-invocation data: the inbound message event handed in by the
//! transport, the transient context that hooks and handlers observe,
//! and the typed errors a dispatch can end in.

use vstd::prelude::*;

verus! {

/// An inbound message event, as delivered by the chat transport.
pub struct MessageEvent {
    /// Identity of the sender.
    pub author: u64,
    /// Identity of the channel the message arrived in.
    pub channel: u64,
    /// Raw message text.
    pub text: Vec<u8>,
}

/// Transient record of one dispatch, created per message and discarded
/// when the dispatch completes. Hooks and handlers read it; nothing
/// retains it afterwards.
pub struct DispatchContext {
    /// The raw message text.
    pub raw: Vec<u8>,
    pub author: u64,
    pub channel: u64,
    /// The parsed command token; empty while parsing has not succeeded.
    pub token: Vec<u8>,
    /// The argument remainder handed to the handler.
    pub args: Vec<u8>,
    /// The resolved command's name; empty while resolution has not
    /// succeeded.
    pub command_name: Vec<u8>,
}

/// A typed dispatch failure, reported to the error hook.
#[derive(Clone, Copy, PartialEq, Eq, Structural, Debug)]
pub enum DispatchError {
    /// The command's bucket denied the invocation; the user is told only
    /// on the first denial of a streak.
    RateLimited { retry_after: u64, is_first_denial: bool },
    /// The command's handler reported a failure.
    HandlerFailed,
    /// The handler exceeded its execution budget.
    HandlerTimedOut,
}

/// The user-visible rate-limit notice, owed exactly on a first denial:
/// later denials of the same streak stay silent to avoid notification
/// spam. The notice carries the remaining wait in seconds.
pub open spec fn ratelimit_notice_spec(e: DispatchError) -> Option<Seq<u8>> {
    match e {
        DispatchError::RateLimited { retry_after, is_first_denial } => if is_first_denial {
            Some(
                seq![84u8, 114u8, 121u8, 32u8, 116u8, 104u8, 105u8, 115u8, 32u8, 97u8, 103u8, 97u8, 105u8, 110u8, 32u8, 105u8, 110u8, 32u8]
                    + crate::text::decimal_digits(retry_after as nat) + seq![
                    32u8,
                    115u8,
                    101u8,
                    99u8,
                    111u8,
                    110u8,
                    100u8,
                    115u8,
                    46u8,
                ],
            )
        } else {
            None
        },
        _ => None,
    }
}

/// Decide whether (and how) to notify the user about a dispatch error:
/// only a rate-limit denial that is the first of its streak produces a
/// notice, `"Try this again in <seconds> seconds."`.
pub fn ratelimit_notice(e: &DispatchError) -> (r: Option<Vec<u8>>)
    ensures
        match r {
            Some(v) => ratelimit_notice_spec(*e) == Some(v@),
            None => ratelimit_notice_spec(*e) is None,
        },
{
    match e {
        DispatchError::RateLimited { retry_after, is_first_denial } => {
            if *is_first_denial {
                let mut out: Vec<u8> = Vec::new();
                out.push(84);
                out.push(114);
                out.push(121);
                out.push(32);
                out.push(116);
                out.push(104);
                out.push(105);
                out.push(115);
                out.push(32);
                out.push(97);
                out.push(103);
                out.push(97);
                out.push(105);
                out.push(110);
                out.push(32);
                out.push(105);
                out.push(110);
                out.push(32);
                let ghost head = out@;
                let digits = crate::text::to_decimal(*retry_after);
                let mut i: usize = 0;
                while i < digits.len()
                    invariant
                        i <= digits@.len(),
                        out@ == head + digits@.take(i as int),
                    decreases digits@.len() - i,
                {
                    out.push(digits[i]);
                    i += 1;
                    assert(out@ =~= head + digits@.take(i as int));
                }
                assert(digits@.take(digits@.len() as int) =~= digits@);
                let ghost mid = out@;
                out.push(32);
                out.push(115);
                out.push(101);
                out.push(99);
                out.push(111);
                out.push(110);
                out.push(100);
                out.push(115);
                out.push(46);
                assert(out@ =~= mid + seq![
                    32u8,
                    115u8,
                    101u8,
                    99u8,
                    111u8,
                    110u8,
                    100u8,
                    115u8,
                    46u8,
                ]);
                assert(head =~= seq![84u8, 114u8, 121u8, 32u8, 116u8, 104u8, 105u8, 115u8, 32u8, 97u8, 103u8, 97u8, 105u8, 110u8, 32u8, 105u8, 110u8, 32u8]);
                Some(out)
            } else {
                None
            }
        },
        _ => None,
    }
}

} // verus!
