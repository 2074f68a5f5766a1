//! The plain types that describe a software-defined radio, and the choice of a
//! radio back end by its name.

use vstd::prelude::*;

verus! {

/// The error of a radio operation.
#[derive(Debug)]
pub struct SdrError;

impl SdrError {
    /// The description of the error.
    pub fn to_string(&self) -> (text: String)
        ensures
            text@ == "SdrError - Bad error, not descriptive"@,
    {
        String::from_str("SdrError - Bad error, not descriptive")
    }
}

/// The direction in which a radio channel works.
#[derive(Debug, Clone, Copy, PartialEq, Eq, Structural)]
pub enum SdrDirection {
    Transmit,
    Receive,
}

/// Whether a direction can be set on a radio: receiving only, since transmission is
/// not supported.
pub fn direction_supported(direction: SdrDirection) -> (supported: bool)
    ensures
        supported == (direction == SdrDirection::Receive),
{
    match direction {
        SdrDirection::Receive => true,
        SdrDirection::Transmit => false,
    }
}

/// The radio back ends that can be chosen by name.
#[derive(Debug, Clone, Copy, PartialEq, Eq, Structural)]
pub enum SdrKind {
    /// A device driven through SoapySDR; its name is `soapysdr`.
    SoapySdr,
    /// A stand-in radio without hardware; its name is `mock`.
    Mock,
}

/// The back end that a name chooses: `soapysdr` or `mock`, and no other.
pub open spec fn kind_named(name: Seq<char>) -> Option<SdrKind> {
    if name == "soapysdr"@ {
        Some(SdrKind::SoapySdr)
    } else if name == "mock"@ {
        Some(SdrKind::Mock)
    } else {
        None
    }
}

/// Whether two texts hold the same characters.
fn same_text(a: &str, b: &str) -> (same: bool)
    ensures
        same == (a@ == b@),
{
    let len = a.unicode_len();
    if len != b.unicode_len() {
        return false;
    }
    let mut k: usize = 0;
    while k < len
        invariant
            k <= len,
            len == a@.len(),
            len == b@.len(),
            forall|j: int| 0 <= j < k ==> #[trigger] a@[j] == b@[j],
        decreases len - k,
    {
        if a.get_char(k) != b.get_char(k) {
            return false;
        }
        k = k + 1;
    }
    assert(a@ =~= b@);
    true
}

/// The radio back end chosen by its name, if the name is known.
pub fn sdr_kind(sdr_type: &str) -> (kind: Option<SdrKind>)
    ensures
        kind == kind_named(sdr_type@),
{
    if same_text(sdr_type, "soapysdr") {
        Some(SdrKind::SoapySdr)
    } else if same_text(sdr_type, "mock") {
        Some(SdrKind::Mock)
    } else {
        None
    }
}

/// The digits of decimal notation.
pub const DIGITS: &'static str = "0123456789";

/// The decimal notation of a number, most significant digit first.
pub open spec fn decimal_digits(n: nat) -> Seq<char>
    decreases n,
{
    if n < 10 {
        seq![DIGITS@[n as int]]
    } else {
        decimal_digits(n / 10).push(DIGITS@[(n % 10) as int])
    }
}

/// The question that asks which of `count` devices to use: `Enter device # [0]` for
/// one device, `Enter device # [0-k]` with `k` the last index for more.
pub open spec fn device_prompt_text(count: nat) -> Seq<char> {
    "Enter device # [0"@ + (if count > 1 {
        seq!['-'] + decimal_digits((count - 1) as nat)
    } else {
        Seq::empty()
    }) + "]"@
}

/// Appends the decimal notation of `n`.
fn push_decimal(text: &mut String, n: usize)
    ensures
        final(text)@ == old(text)@ + decimal_digits(n as nat),
    decreases n,
{
    proof {
        reveal_strlit("0123456789");
    }
    if n >= 10 {
        push_decimal(text, n / 10);
    }
    let digit = DIGITS.substring_char(n % 10, n % 10 + 1);
    text.append(digit);
    assert(text@ =~= old(text)@ + decimal_digits(n as nat));
}

/// The question that asks which of `count` devices to use.
pub fn device_prompt(count: usize) -> (prompt: String)
    ensures
        prompt@ == device_prompt_text(count as nat),
        count <= 1 ==> prompt@ == "Enter device # [0]"@,
        count > 1 ==> {
            &&& prompt@.len() > 19
            &&& prompt@.subrange(0, 18) == "Enter device # [0-"@
            &&& prompt@.last() == ']'
            &&& decimal_number(prompt@.subrange(18, prompt@.len() - 1)) == Some((count - 1) as nat)
        },
{
    proof {
        law_prompt_names_the_last_index(count as nat);
    }
    let mut prompt = String::from_str("Enter device # [0");
    if count > 1 {
        prompt.append("-");
        push_decimal(&mut prompt, count - 1);
    }
    prompt.append("]");
    proof {
        reveal_strlit("-");
    }
    assert(prompt@ =~= device_prompt_text(count as nat));
    prompt
}

/// Whether a character is a decimal digit.
pub open spec fn is_digit(c: char) -> bool {
    '0' <= c && c <= '9'
}

/// The value of decimal digits, most significant first.
pub open spec fn digits_value(digits: Seq<char>) -> nat
    decreases digits.len(),
{
    if digits.len() == 0 {
        0
    } else {
        10 * digits_value(digits.drop_last()) + (digits.last() as nat - '0' as nat) as nat
    }
}

/// A decimal text without its leading `+`, if it has one.
pub open spec fn unsigned_part(text: Seq<char>) -> Seq<char> {
    if text.len() > 0 && text[0] == '+' {
        text.drop_first()
    } else {
        text
    }
}

/// The number that a decimal text states: an optional `+`, then one or more digits.
pub open spec fn decimal_number(text: Seq<char>) -> Option<nat> {
    let digits = unsigned_part(text);
    if digits.len() > 0 && forall|i: int| 0 <= i < digits.len() ==> is_digit(#[trigger] digits[i]) {
        Some(digits_value(digits))
    } else {
        None
    }
}

/// Why an answer does not choose a device.
#[derive(Debug, Clone, Copy, PartialEq, Eq, Structural)]
pub enum DeviceChoiceError {
    /// The answer is not a decimal number that fits a `usize`.
    NotANumber,
    /// The answer is the number of no listed device.
    NoSuchDevice(usize),
}

/// The device that an answer chooses among `count`: the number it states, if that is
/// a `usize` below `count`.
pub open spec fn choice_of(answer: Seq<char>, count: nat) -> Result<usize, DeviceChoiceError> {
    match decimal_number(answer) {
        None => Err(DeviceChoiceError::NotANumber),
        Some(n) => if n > usize::MAX {
            Err(DeviceChoiceError::NotANumber)
        } else if n < count {
            Ok(n as usize)
        } else {
            Err(DeviceChoiceError::NoSuchDevice(n as usize))
        },
    }
}

/// The device that an answer (without surrounding white space) chooses among `count`.
pub fn choose_device(answer: &str, count: usize) -> (choice: Result<usize, DeviceChoiceError>)
    ensures
        choice == choice_of(answer@, count as nat),
{
    let len = answer.unicode_len();
    let start: usize = if len > 0 && answer.get_char(0) == '+' {
        1
    } else {
        0
    };
    let ghost digits = answer@.subrange(start as int, len as int);
    assert(digits =~= unsigned_part(answer@));
    if start == len {
        return Err(DeviceChoiceError::NotANumber);
    }
    let mut value: usize = 0;
    let mut fits = true;
    let mut k: usize = start;
    while k < len
        invariant
            start <= k <= len,
            len == answer@.len(),
            digits == answer@.subrange(start as int, len as int),
            digits == unsigned_part(answer@),
            forall|i: int| start <= i < k ==> is_digit(#[trigger] answer@[i]),
            fits ==> value == digits_value(answer@.subrange(start as int, k as int)),
            !fits ==> digits_value(answer@.subrange(start as int, k as int)) > usize::MAX,
        decreases len - k,
    {
        let c = answer.get_char(k);
        if !('0' <= c && c <= '9') {
            assert(!is_digit(digits[k - start]));
            return Err(DeviceChoiceError::NotANumber);
        }
        let digit: usize = (c as u32 - '0' as u32) as usize;
        let ghost prefix = answer@.subrange(start as int, k as int);
        let ghost next = answer@.subrange(start as int, k + 1);
        assert(next.drop_last() =~= prefix);
        assert(digits_value(next) == 10 * digits_value(prefix) + digit);
        if fits {
            match value.checked_mul(10) {
                Some(tens) => match tens.checked_add(digit) {
                    Some(v) => {
                        value = v;
                    },
                    None => {
                        fits = false;
                    },
                },
                None => {
                    fits = false;
                },
            }
        }
        k = k + 1;
    }
    assert(answer@.subrange(start as int, len as int) == digits);
    if !fits {
        Err(DeviceChoiceError::NotANumber)
    } else if value < count {
        Ok(value)
    } else {
        Err(DeviceChoiceError::NoSuchDevice(value))
    }
}

/// Whether a character has Unicode's White_Space property: the controls U+0009 to
/// U+000D and U+0085, the space U+0020, the no-break space U+00A0, the Ogham space
/// mark U+1680, the spaces U+2000 to U+200A, the line and paragraph separators U+2028
/// and U+2029, the narrow no-break space U+202F, the medium mathematical space U+205F
/// and the ideographic space U+3000.
pub open spec fn is_white_space(c: char) -> bool {
    let u = c as int;
    ||| 0x9 <= u <= 0xD
    ||| u == 0x20
    ||| u == 0x85
    ||| u == 0xA0
    ||| u == 0x1680
    ||| 0x2000 <= u <= 0x200A
    ||| u == 0x2028
    ||| u == 0x2029
    ||| u == 0x202F
    ||| u == 0x205F
    ||| u == 0x3000
}

/// A text without its leading white space.
pub open spec fn trimmed_start(text: Seq<char>) -> Seq<char>
    decreases text.len(),
{
    if text.len() > 0 && is_white_space(text[0]) {
        trimmed_start(text.drop_first())
    } else {
        text
    }
}

/// A text without its trailing white space.
pub open spec fn trimmed_end(text: Seq<char>) -> Seq<char>
    decreases text.len(),
{
    if text.len() > 0 && is_white_space(text.last()) {
        trimmed_end(text.drop_last())
    } else {
        text
    }
}

/// A text without its leading and trailing white space.
pub open spec fn trimmed(text: Seq<char>) -> Seq<char> {
    trimmed_end(trimmed_start(text))
}

/// `str::trim`, which the standard library documents as returning the text with its
/// leading and trailing white space removed, white space being the characters with
/// Unicode's White_Space property. Trusted: the result is `trimmed` of the text.
#[verifier::external_body]
fn trim_text(text: &str) -> (inner: &str)
    ensures
        inner@ == trimmed(text@),
{
    text.trim()
}

/// The device that a line typed in answer to the device prompt chooses among `count`:
/// the line is read without its surrounding white space.
pub fn device_choice(line: &str, count: usize) -> (choice: Result<usize, DeviceChoiceError>)
    ensures
        choice == choice_of(trimmed(line@), count as nat),
{
    choose_device(trim_text(line), count)
}

/// Decimal notation reads back as its number: it is one or more digits, with no
/// leading zero unless the number is 0, whose value is the number; read as an
/// answer it gives the number back.
pub proof fn law_decimal_notation_reads_back(n: nat)
    ensures
        decimal_digits(n).len() > 0,
        forall|i: int| 0 <= i < decimal_digits(n).len() ==> is_digit(#[trigger] decimal_digits(n)[i]),
        n > 0 ==> decimal_digits(n)[0] != '0',
        digits_value(decimal_digits(n)) == n,
        decimal_number(decimal_digits(n)) == Some(n),
    decreases n,
{
    reveal_strlit("0123456789");
    let d = decimal_digits(n);
    if n >= 10 {
        law_decimal_notation_reads_back(n / 10);
        let prefix = decimal_digits(n / 10);
        assert(d.drop_last() =~= prefix);
        assert(d[0] == prefix[0]);
        assert forall|i: int| 0 <= i < d.len() implies is_digit(#[trigger] d[i]) by {
            if i < d.len() - 1 {
                assert(d[i] == prefix[i]);
            }
        }
    } else {
        assert(d.drop_last() =~= Seq::<char>::empty());
        assert(digits_value(Seq::<char>::empty()) == 0);
    }
    assert(unsigned_part(d) == d);
}

/// The device prompt names the index range: `Enter device # [0]` for at most one
/// device, and otherwise `Enter device # [0-` followed by the digits of the last
/// index, `count - 1`, and `]`.
pub proof fn law_prompt_names_the_last_index(count: nat)
    ensures
        count <= 1 ==> device_prompt_text(count) == "Enter device # [0]"@,
        count > 1 ==> {
            let text = device_prompt_text(count);
            &&& text.len() > 19
            &&& text.subrange(0, 18) == "Enter device # [0-"@
            &&& text.last() == ']'
            &&& forall|i: int| 18 <= i < text.len() - 1 ==> is_digit(#[trigger] text[i])
            &&& decimal_number(text.subrange(18, text.len() - 1)) == Some((count - 1) as nat)
        },
{
    reveal_strlit("Enter device # [0");
    reveal_strlit("Enter device # [0]");
    reveal_strlit("Enter device # [0-");
    reveal_strlit("]");
    let text = device_prompt_text(count);
    if count <= 1 {
        assert(text =~= "Enter device # [0]"@);
    } else {
        let digits = decimal_digits((count - 1) as nat);
        law_decimal_notation_reads_back((count - 1) as nat);
        assert(text.subrange(0, 18) =~= "Enter device # [0-"@);
        assert(text.subrange(18, text.len() - 1) =~= digits);
        assert forall|i: int| 18 <= i < text.len() - 1 implies is_digit(#[trigger] text[i]) by {
            assert(text[i] == digits[i - 18]);
        }
    }
}

/// Whether the SoapySDR tool set is in working order.
pub fn soapysdr_tools_works() -> (works: bool)
    ensures
        works,
{
    true
}

} // verus!
