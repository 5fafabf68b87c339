//! Rendering of the decryption-failure diagnostic: for an envelope no
//! candidate state could decrypt, one report enumerating each tried state's
//! receiver chains, their public keys and current indices.
use vstd::prelude::*;
use vstd::string::StringExecFns;
use crate::address::AddressValue;
use crate::address::ProtocolAddress;
use crate::errors::ErrorValue;
use crate::errors::SignalProtocolError;
use crate::protocol::MessageValue;
use crate::protocol::SignalMessage;
use crate::state::ReceiverChain;
use crate::state::ReceiverChainValue;
use crate::state::RecordValue;
use crate::state::SessionRecord;
use crate::state::SessionState;
use crate::state::StateValue;

verus! {

/// The decimal digit character for `n < 10`.
pub open spec fn spec_dec_digit(n: nat) -> char {
    (('0' as u8) + n) as char
}

/// Base-ten rendering of a number: no sign, no padding, `0` as "0".
pub open spec fn spec_dec_nat(n: nat) -> Seq<char>
    decreases n,
{
    if n < 10 {
        seq![spec_dec_digit(n)]
    } else {
        spec_dec_nat(n / 10).push(spec_dec_digit(n % 10))
    }
}

/// The lowercase hex digit character for `n < 16`.
pub open spec fn spec_hex_digit(n: u64) -> char {
    if n < 10 {
        (('0' as u8) + n as u8) as char
    } else {
        (('a' as u8) + (n - 10) as u8) as char
    }
}

/// Sixteen lowercase hex digits of a 64-bit word, high nibble first.
pub open spec fn spec_hex_u64(x: u64) -> Seq<char> {
    Seq::new(16, |i: int| spec_hex_digit((x >> (((15 - i) * 4) as u64)) & 0xf))
}

/// Relies on `core`'s `Display` for `u64`: base-ten digits, most significant
/// first, no sign and no padding.
#[verifier::external_body]
pub fn dec_u64(x: u64) -> (r: String)
    ensures
        r@ == spec_dec_nat(x as nat),
{
    format!("{}", x)
}

/// Relies on `hex::encode`: each byte becomes two lowercase hex digits, high
/// nibble first; big-endian bytes of the word give the digits in order.
#[verifier::external_body]
pub fn hex_u64(x: u64) -> (r: String)
    ensures
        r@ == spec_hex_u64(x),
{
    hex::encode(x.to_be_bytes())
}

/// One-line rendering of an error value.
pub open spec fn spec_describe_error(e: ErrorValue) -> Seq<char> {
    match e {
        ErrorValue::SessionNotFound => "session not found"@,
        ErrorValue::InvalidSessionStructure => "invalid session structure"@,
        ErrorValue::UnrecognizedMessageVersion(v) => "unrecognized message version "@
            + spec_dec_nat(v as nat),
        ErrorValue::InvalidCiphertext => "invalid ciphertext"@,
        ErrorValue::InvalidMessage(reason) => "invalid message: "@ + reason,
        ErrorValue::DuplicatedMessage(i, c) => "duplicated message: chain index "@ + spec_dec_nat(
            i as nat,
        ) + ", counter "@ + spec_dec_nat(c as nat),
        ErrorValue::UntrustedIdentity(a) => "untrusted identity for "@ + a.name + ":"@
            + spec_dec_nat(a.device_id as nat),
        ErrorValue::InvalidArgument(reason) => "invalid argument: "@ + reason,
    }
}

/// Render an error for the diagnostic log.
pub fn describe_error(e: &SignalProtocolError) -> (r: String)
    ensures
        r@ == spec_describe_error(e@),
{
    let mut out = String::new();
    match e {
        SignalProtocolError::SessionNotFound => {
            out.append("session not found");
        },
        SignalProtocolError::InvalidSessionStructure => {
            out.append("invalid session structure");
        },
        SignalProtocolError::UnrecognizedMessageVersion(v) => {
            out.append("unrecognized message version ");
            out.append(dec_u64(*v as u64).as_str());
        },
        SignalProtocolError::InvalidCiphertext => {
            out.append("invalid ciphertext");
        },
        SignalProtocolError::InvalidMessage(reason) => {
            out.append("invalid message: ");
            out.append(reason);
        },
        SignalProtocolError::DuplicatedMessage(i, c) => {
            out.append("duplicated message: chain index ");
            out.append(dec_u64(*i).as_str());
            out.append(", counter ");
            out.append(dec_u64(*c as u64).as_str());
        },
        SignalProtocolError::UntrustedIdentity(a) => {
            out.append("untrusted identity for ");
            out.append(a.name.as_str());
            out.append(":");
            out.append(dec_u64(a.device_id as u64).as_str());
        },
        SignalProtocolError::InvalidArgument(reason) => {
            out.append("invalid argument: ");
            out.append(reason);
        },
    }
    out
}

/// One line per receiver chain: its public key and current index.
pub open spec fn spec_chain_line(c: ReceiverChainValue) -> Seq<char> {
    "receiver chain with sender ratchet key "@ + spec_hex_u64(c.ratchet_key.value)
        + " chain key index "@ + spec_dec_nat(c.chain_key.index as nat) + "\n"@
}

pub open spec fn spec_chain_lines(chains: Seq<ReceiverChainValue>) -> Seq<char>
    decreases chains.len(),
{
    if chains.len() == 0 {
        Seq::empty()
    } else {
        spec_chain_line(chains[0]) + spec_chain_lines(chains.drop_first())
    }
}

fn chain_lines(chains: &Vec<ReceiverChain>) -> (r: String)
    ensures
        r@ == spec_chain_lines(chains@.map_values(|c: ReceiverChain| c@)),
{
    let ghost target = spec_chain_lines(chains@.map_values(|c: ReceiverChain| c@));
    let mut out = String::new();
    proof {
        assert(chains@.map_values(|c: ReceiverChain| c@).skip(0) =~= chains@.map_values(
            |c: ReceiverChain| c@,
        ));
    }
    let mut i: usize = 0;
    while i < chains.len()
        invariant
            i <= chains@.len(),
            target == spec_chain_lines(chains@.map_values(|c: ReceiverChain| c@)),
            target == out@ + spec_chain_lines(
                chains@.map_values(|c: ReceiverChain| c@).skip(i as int),
            ),
        decreases chains@.len() - i,
    {
        let ghost mapped = chains@.map_values(|c: ReceiverChain| c@);
        let ghost out0 = out@;
        out.append("receiver chain with sender ratchet key ");
        out.append(hex_u64(chains[i].ratchet_key.value).as_str());
        out.append(" chain key index ");
        out.append(dec_u64(chains[i].chain_key.index).as_str());
        out.append("\n");
        proof {
            assert(mapped.skip(i as int)[0] == mapped[i as int]);
            assert(mapped.skip(i as int).drop_first() =~= mapped.skip(i as int + 1));
            assert(out@ =~= out0 + spec_chain_line(mapped[i as int]));
            assert(out0 + (spec_chain_line(mapped[i as int]) + spec_chain_lines(
                mapped.skip(i as int + 1),
            )) =~= (out0 + spec_chain_line(mapped[i as int])) + spec_chain_lines(
                mapped.skip(i as int + 1),
            ));
        }
        i = i + 1;
    }
    proof {
        assert(chains@.map_values(|c: ReceiverChain| c@).skip(chains@.len() as int)
            =~= Seq::<ReceiverChainValue>::empty());
        assert(target =~= out@);
    }
    out
}

/// One block per candidate state: the error it failed with and its receiver
/// chains.
pub open spec fn spec_state_block(idx: nat, s: StateValue, e: ErrorValue) -> Seq<char> {
    "candidate session "@ + spec_dec_nat(idx) + " failed with '"@ + spec_describe_error(e)
        + "', had "@ + spec_dec_nat(s.receiver_chains.len()) + " receiver chains\n"@
        + spec_chain_lines(s.receiver_chains)
}

pub open spec fn spec_failure_blocks(
    states: Seq<StateValue>,
    errs: Seq<ErrorValue>,
    idx: nat,
) -> Seq<char>
    decreases states.len(),
{
    if states.len() == 0 || errs.len() == 0 {
        Seq::empty()
    } else {
        spec_state_block(idx, states[0], errs[0]) + spec_failure_blocks(
            states.drop_first(),
            errs.drop_first(),
            idx + 1,
        )
    }
}

/// The candidate states in the order the record-level decryptor tries them.
pub open spec fn spec_candidate_states(r: RecordValue) -> Seq<StateValue> {
    (match r.current {
        Some(c) => seq![c],
        None => Seq::empty(),
    }) + r.previous
}

/// The whole diagnostic: a header naming the peer, the envelope's ratchet key
/// and counter, then one block per tried state.
pub open spec fn spec_failure_log(
    a: AddressValue,
    errs: Seq<ErrorValue>,
    r: RecordValue,
    m: MessageValue,
) -> Seq<char> {
    "message from "@ + a.name + ":"@ + spec_dec_nat(a.device_id as nat)
        + " failed to decrypt; sender ratchet key "@ + spec_hex_u64(m.sender_ratchet_key.value)
        + " counter "@ + spec_dec_nat(m.counter as nat) + "\n"@ + spec_failure_blocks(
        spec_candidate_states(r),
        errs,
        0,
    )
}

fn state_block(idx: usize, state: &SessionState, err: &SignalProtocolError) -> (r: String)
    ensures
        r@ == spec_state_block(idx as nat, state@, err@),
{
    let mut out = String::new();
    out.append("candidate session ");
    out.append(dec_u64(idx as u64).as_str());
    out.append(" failed with '");
    out.append(describe_error(err).as_str());
    out.append("', had ");
    out.append(dec_u64(state.receiver_chains.len() as u64).as_str());
    out.append(" receiver chains\n");
    out.append(chain_lines(&state.receiver_chains).as_str());
    out
}

/// Render the diagnostic for a decryption failure: which states were tried
/// against the envelope, each error, and each state's receiver chains with
/// their current indices.
pub fn create_decryption_failure_log(
    remote_address: &ProtocolAddress,
    errs: &Vec<SignalProtocolError>,
    record: &SessionRecord,
    ciphertext: &SignalMessage,
) -> (r: String)
    ensures
        r@ == spec_failure_log(
            remote_address@,
            errs@.map_values(|e: SignalProtocolError| e@),
            record@,
            ciphertext@,
        ),
{
    let ghost states = spec_candidate_states(record@);
    let ghost errs_v = errs@.map_values(|e: SignalProtocolError| e@);
    let mut out = String::new();
    out.append("message from ");
    out.append(remote_address.name.as_str());
    out.append(":");
    out.append(dec_u64(remote_address.device_id as u64).as_str());
    out.append(" failed to decrypt; sender ratchet key ");
    out.append(hex_u64(ciphertext.sender_ratchet_key.value).as_str());
    out.append(" counter ");
    out.append(dec_u64(ciphertext.counter as u64).as_str());
    out.append("\n");
    let ghost header = out@;

    let offset: usize = if record.current.is_some() {
        1
    } else {
        0
    };
    proof {
        assert(states.skip(0) =~= states);
        assert(errs_v.skip(0) =~= errs_v);
    }
    let mut k: usize = 0;
    while (k < offset || k - offset < record.previous.len()) && k < errs.len()
        invariant
            offset == (if record@.current is Some { 1int } else { 0int }),
            states == spec_candidate_states(record@),
            errs_v == errs@.map_values(|e: SignalProtocolError| e@),
            k <= states.len(),
            k <= errs_v.len(),
            spec_failure_log(remote_address@, errs_v, record@, ciphertext@) == out@
                + spec_failure_blocks(states.skip(k as int), errs_v.skip(k as int), k as nat),
        decreases states.len() - k,
    {
        let ghost out0 = out@;
        let block = match &record.current {
            Some(current) => if k == 0 {
                state_block(k, current, &errs[k])
            } else {
                state_block(k, &record.previous[k - 1], &errs[k])
            },
            None => state_block(k, &record.previous[k], &errs[k]),
        };
        proof {
            assert(states.skip(k as int)[0] == states[k as int]);
            assert(errs_v.skip(k as int)[0] == errs_v[k as int]);
            assert(states.skip(k as int).drop_first() =~= states.skip(k as int + 1));
            assert(errs_v.skip(k as int).drop_first() =~= errs_v.skip(k as int + 1));
            assert(block@ == spec_state_block(k as nat, states[k as int], errs_v[k as int]));
        }
        out.append(block.as_str());
        proof {
            assert(out0 + (spec_state_block(k as nat, states[k as int], errs_v[k as int])
                + spec_failure_blocks(states.skip(k as int + 1), errs_v.skip(k as int + 1), (k
                + 1) as nat)) =~= (out0 + spec_state_block(
                k as nat,
                states[k as int],
                errs_v[k as int],
            )) + spec_failure_blocks(states.skip(k as int + 1), errs_v.skip(k as int + 1), (k
                + 1) as nat));
        }
        k = k + 1;
    }
    proof {
        if k >= states.len() {
            assert(states.skip(k as int) =~= Seq::<StateValue>::empty());
        } else {
            assert(errs_v.skip(k as int) =~= Seq::<ErrorValue>::empty());
        }
        assert(spec_failure_blocks(states.skip(k as int), errs_v.skip(k as int), k as nat)
            =~= Seq::<char>::empty());
        assert(spec_failure_log(remote_address@, errs_v, record@, ciphertext@) =~= out@);
    }
    out
}

} // verus!
