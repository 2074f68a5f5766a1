use vstd::prelude::*;
use vstd::arithmetic::power2::pow2;
use vstd::arithmetic::power2::lemma_pow2_unfold;
use vstd::arithmetic::power2::lemma2_to64;
use vstd::arithmetic::power2::lemma_pow2_strictly_increases;

verus! {

/// One decoded Mode S frame: its downlink format, its transponder capability and
/// the 56 bits of its extended squitter message (one entry per bit, `1` for a set bit).
pub struct AdsBData {
    pub downlink_format: u8,
    pub transponder_capability: u8,
    pub message: [u8; 56],
}

/// The unsigned value of a bit field written most significant bit first, where an
/// entry stands for a set bit exactly when it equals `1`.
pub open spec fn field_value(bits: Seq<u8>) -> nat
    decreases bits.len(),
{
    if bits.len() == 0 {
        0
    } else {
        2 * field_value(bits.drop_last()) + (if bits.last() == 1 { 1nat } else { 0nat })
    }
}

/// A field of `n` bits has a value below `2^n`.
pub proof fn lemma_field_value_bound(bits: Seq<u8>)
    ensures
        field_value(bits) < pow2(bits.len()),
    decreases bits.len(),
{
    if bits.len() == 0 {
        lemma2_to64();
    } else {
        lemma_field_value_bound(bits.drop_last());
        lemma_pow2_unfold(bits.len());
    }
}

/// A field of fewer than eight bits leaves room for one more bit in a byte.
pub proof fn lemma_next_bit_fits(prefix: Seq<u8>)
    requires
        prefix.len() < 8,
    ensures
        2 * field_value(prefix) + 1 < 256,
{
    lemma_field_value_bound(prefix);
    lemma_pow2_unfold(prefix.len() + 1);
    lemma2_to64();
    if prefix.len() + 1 < 8 {
        lemma_pow2_strictly_increases(prefix.len() + 1, 8);
    }
}

/// Reads the `len` message bits that start at `start`, most significant first.
fn message_field(message: &[u8; 56], start: usize, len: usize) -> (r: u8)
    requires
        start + len <= 56,
        len <= 8,
    ensures
        r == field_value(message@.subrange(start as int, start + len)),
{
    let mut result: u8 = 0;
    let mut i: usize = 0;
    while i < len
        invariant
            i <= len,
            start + len <= 56,
            len <= 8,
            result == field_value(message@.subrange(start as int, start + i)),
        decreases len - i,
    {
        let ghost prev = message@.subrange(start as int, start + i);
        let ghost next = message@.subrange(start as int, start + i + 1);
        proof {
            assert(next.drop_last() =~= prev);
            lemma_next_bit_fits(prev);
        }
        let bit: u8 = if message[start + i] == 1 { 1 } else { 0 };
        result = result * 2 + bit;
        i = i + 1;
    }
    result
}

/// The type code: the value of the first five message bits.
pub fn get_type_code(data: &AdsBData) -> (type_code: u8)
    ensures
        type_code == field_value(data.message@.subrange(0, 5)),
        type_code < 32,
{
    let type_code = message_field(&data.message, 0, 5);
    proof {
        lemma_field_value_bound(data.message@.subrange(0, 5));
        lemma2_to64();
    }
    type_code
}

/// The character set of aircraft identification messages, indexed by a six-bit code.
pub const CHARSET: &'static str = "#ABCDEFGHIJKLMNOPQRSTUVWXYZ##### ###############0123456789######";

/// The character that a six-bit identification code stands for.
pub open spec fn callsign_char(code: nat) -> char {
    CHARSET@[code as int]
}

/// The eight identification characters of a message: character `k` is coded by
/// the six bits that start at bit `8 + 6 * k`.
pub open spec fn callsign_of(message: Seq<u8>) -> Seq<char> {
    Seq::new(8, |k: int| callsign_char(field_value(message.subrange(8 + 6 * k, 14 + 6 * k))))
}

/// Appends the character that a six-bit code stands for.
fn push_charset_char(text: &mut String, code: u8)
    requires
        code < 64,
    ensures
        final(text)@ == old(text)@.push(callsign_char(code as nat)),
{
    proof {
        reveal_strlit("#ABCDEFGHIJKLMNOPQRSTUVWXYZ##### ###############0123456789######");
    }
    let c = CHARSET.substring_char(code as usize, code as usize + 1);
    text.append(c);
    assert(text@ =~= old(text)@.push(callsign_char(code as nat)));
}

/// The aircraft identification (callsign) carried by the message: eight characters.
pub fn get_callsign(data: &AdsBData) -> (callsign: String)
    ensures
        callsign@ == callsign_of(data.message@),
        callsign@.len() == 8,
{
    let mut result = String::new();
    let mut i: usize = 0;
    while i < 8
        invariant
            i <= 8,
            result@ =~= callsign_of(data.message@).subrange(0, i as int),
        decreases 8 - i,
    {
        let code = message_field(&data.message, 8 + i * 6, 6);
        proof {
            lemma_field_value_bound(data.message@.subrange(8 + 6 * i, 14 + 6 * i));
            lemma2_to64();
        }
        push_charset_char(&mut result, code);
        i = i + 1;
    }
    result
}

/// Whether a callsign is complete: none of its characters is the filler `#`.
pub open spec fn is_complete_callsign(callsign: Seq<char>) -> bool {
    forall|k: int| 0 <= k < callsign.len() ==> #[trigger] callsign[k] != '#'
}

/// Whether a frame carries an aircraft identification to report: an extended
/// squitter (downlink format 17) of type code 1 to 4 whose callsign is complete.
pub open spec fn is_reportable(data: AdsBData) -> bool {
    let type_code = field_value(data.message@.subrange(0, 5));
    &&& data.downlink_format == 17
    &&& 1 <= type_code <= 4
    &&& is_complete_callsign(callsign_of(data.message@))
}

/// Whether none of the characters of `text` is the filler `#`.
fn has_no_filler(text: &String) -> (complete: bool)
    ensures
        complete == is_complete_callsign(text@),
{
    let view: &str = text.as_str();
    let len = view.unicode_len();
    let mut k: usize = 0;
    while k < len
        invariant
            k <= len,
            len == text@.len(),
            view@ == text@,
            forall|j: int| 0 <= j < k ==> #[trigger] text@[j] != '#',
        decreases len - k,
    {
        if view.get_char(k) == '#' {
            return false;
        }
        k = k + 1;
    }
    true
}

/// The callsign of a frame that carries an aircraft identification to report, and
/// nothing for any other frame.
pub fn reportable_callsign(data: &AdsBData) -> (callsign: Option<String>)
    ensures
        callsign is Some <==> is_reportable(*data),
        callsign matches Some(text) ==> text@ == callsign_of(data.message@),
        callsign matches Some(text) ==> text@.len() == 8 && forall|k: int|
            0 <= k < 8 ==> #[trigger] text@[k] != '#',
{
    if data.downlink_format != 17 {
        return None;
    }
    let type_code = get_type_code(data);
    if type_code < 1 || type_code > 4 {
        return None;
    }
    let callsign = get_callsign(data);
    if has_no_filler(&callsign) {
        proof {
            crate::mode_s::laws::law_reported_callsigns_have_no_filler(*data);
        }
        Some(callsign)
    } else {
        None
    }
}

} // verus!
