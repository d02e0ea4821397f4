//! Decimal numbers and the fixed-width text fields of LAS records.
use vstd::prelude::*;
use vstd::utf8::{
    decode_utf8, encode_utf8, encode_utf8_decode_utf8, encode_utf8_valid_utf8, valid_utf8,
};

verus! {

/// The decimal digit `d`, for `d` below ten.
pub open spec fn digit_text(d: nat) -> Seq<char> {
    if d == 0 {
        "0"@
    } else if d == 1 {
        "1"@
    } else if d == 2 {
        "2"@
    } else if d == 3 {
        "3"@
    } else if d == 4 {
        "4"@
    } else if d == 5 {
        "5"@
    } else if d == 6 {
        "6"@
    } else if d == 7 {
        "7"@
    } else if d == 8 {
        "8"@
    } else {
        "9"@
    }
}

/// `n` in decimal, without leading zeros.
pub open spec fn decimal_text(n: nat) -> Seq<char>
    decreases n,
{
    if n < 10 {
        digit_text(n)
    } else {
        decimal_text(n / 10) + digit_text(n % 10)
    }
}

/// The number that a numeral stands for.
pub open spec fn numeral_value(text: Seq<char>) -> int
    decreases text.len(),
{
    if text.len() == 0 {
        0
    } else {
        10 * numeral_value(text.drop_last()) + (text.last() as int - '0' as int)
    }
}

/// A number in decimal is made of digits, does not begin with a zero unless it is
/// zero, and stands for the number.
pub proof fn lemma_decimal(n: nat)
    ensures
        decimal_text(n).len() > 0,
        forall|i: int| 0 <= i < decimal_text(n).len() ==> '0' <= #[trigger] decimal_text(n)[i] <= '9',
        decimal_text(n).len() > 1 ==> decimal_text(n)[0] != '0',
        decimal_text(n)[0] == '0' ==> n == 0,
        numeral_value(decimal_text(n)) == n,
    decreases n,
{
    reveal_strlit("0");
    reveal_strlit("1");
    reveal_strlit("2");
    reveal_strlit("3");
    reveal_strlit("4");
    reveal_strlit("5");
    reveal_strlit("6");
    reveal_strlit("7");
    reveal_strlit("8");
    reveal_strlit("9");
    let text = decimal_text(n);
    if n < 10 {
        assert(text.drop_last() =~= Seq::empty());
        assert(numeral_value(Seq::<char>::empty()) == 0);
    } else {
        lemma_decimal(n / 10);
        assert(text.drop_last() =~= decimal_text(n / 10));
        assert(text.last() == digit_text(n % 10)[0]);
        assert(text[0] == decimal_text(n / 10)[0]);
    }
}

fn digit(d: u64) -> (s: &'static str)
    requires
        d < 10,
    ensures
        s@ == digit_text(d as nat),
{
    match d {
        0 => "0",
        1 => "1",
        2 => "2",
        3 => "3",
        4 => "4",
        5 => "5",
        6 => "6",
        7 => "7",
        8 => "8",
        _ => "9",
    }
}

/// Writes `n` in decimal.
pub fn decimal(n: u64) -> (s: String)
    ensures
        s@ == decimal_text(n as nat),
        numeral_value(s@) == n,
    decreases n,
{
    proof {
        lemma_decimal(n as nat);
    }
    let mut s: String = String::new();
    if n >= 10 {
        s = decimal(n / 10);
    }
    s.append(digit(n % 10));
    s
}

/// What `String::from_utf8_lossy` makes of bytes that are not UTF-8.
pub uninterp spec fn lossy_text(bytes: Seq<u8>) -> Seq<char>;

/// Calls `String::from_utf8_lossy`.
///
/// Trusted: on UTF-8 the result is the text that the bytes encode. On other
/// bytes it is a function of the bytes alone, `lossy_text`; that the function
/// puts U+FFFD in place of each invalid sequence is left unsaid.
#[verifier::external_body]
fn from_utf8_lossy(bytes: &[u8]) -> (s: String)
    ensures
        valid_utf8(bytes@) ==> s@ == decode_utf8(bytes@),
        !valid_utf8(bytes@) ==> s@ == lossy_text(bytes@),
{
    String::from_utf8_lossy(bytes).into_owned()
}

/// The bytes of `b` before its first NUL, or all of `b` when it has none.
pub open spec fn before_nul(b: Seq<u8>) -> Seq<u8>
    decreases b.len(),
{
    if b.len() == 0 || b[0] == 0 {
        Seq::empty()
    } else {
        seq![b[0]] + before_nul(b.drop_first())
    }
}

/// The text in a NUL-padded field.
pub open spec fn field_text(b: Seq<u8>) -> Seq<char> {
    let used = before_nul(b);
    if valid_utf8(used) {
        decode_utf8(used)
    } else {
        lossy_text(used)
    }
}

/// What comes before the first NUL is the prefix that ends there.
proof fn lemma_before_nul(b: Seq<u8>, end: int)
    requires
        0 <= end <= b.len(),
        forall|i: int| 0 <= i < end ==> b[i] != 0,
        end < b.len() ==> b[end] == 0,
    ensures
        before_nul(b) == b.take(end),
    decreases b.len(),
{
    if end > 0 {
        let rest = b.drop_first();
        assert forall|i: int| 0 <= i < end - 1 implies rest[i] != 0 by {
            assert(rest[i] == b[i + 1]);
        }
        lemma_before_nul(rest, end - 1);
        assert(seq![b[0]] + rest.take(end - 1) =~= b.take(end));
    } else {
        assert(b.take(0) =~= Seq::empty());
    }
}

/// A field gives the text that its bytes before the first NUL encode. If they encode
/// none, it gives what the standard library makes of those bytes.
pub proof fn lemma_field_text(b: Seq<u8>, end: int)
    requires
        0 <= end <= b.len(),
        forall|i: int| 0 <= i < end ==> b[i] != 0,
        end < b.len() ==> b[end] == 0,
    ensures
        valid_utf8(b.take(end)) ==> field_text(b) == decode_utf8(b.take(end)),
        !valid_utf8(b.take(end)) ==> field_text(b) == lossy_text(b.take(end)),
{
    lemma_before_nul(b, end);
}

/// A text without NUL, written to a field and padded with NULs, reads back as it is.
pub proof fn lemma_field_reads_back(text: Seq<char>, b: Seq<u8>)
    requires
        encode_utf8(text).len() <= b.len(),
        b.take(encode_utf8(text).len() as int) == encode_utf8(text),
        forall|i: int| 0 <= i < encode_utf8(text).len() ==> encode_utf8(text)[i] != 0,
        encode_utf8(text).len() < b.len() ==> b[encode_utf8(text).len() as int] == 0,
    ensures
        field_text(b) == text,
{
    let end = encode_utf8(text).len() as int;
    assert forall|i: int| 0 <= i < end implies b[i] != 0 by {
        assert(b.take(end)[i] == encode_utf8(text)[i]);
    }
    lemma_field_text(b, end);
    encode_utf8_valid_utf8(text);
    encode_utf8_decode_utf8(text);
}

/// Reads the NUL-padded text field `b[from..to]`.
pub fn read_field(b: &[u8], from: usize, to: usize) -> (s: String)
    requires
        from <= to <= b.len(),
    ensures
        s@ == field_text(b@.subrange(from as int, to as int)),
        forall|end: int|
            from <= end <= to && (forall|i: int| from <= i < end ==> b@[i] != 0) && (end < to
                ==> b@[end] == 0) ==> {
                let used = #[trigger] b@.subrange(from as int, end);
                &&& valid_utf8(used) ==> s@ == decode_utf8(used)
                &&& !valid_utf8(used) ==> s@ == lossy_text(used)
            },
{
    let mut end: usize = from;
    while end < to && b[end] != 0
        invariant
            from <= end <= to <= b.len(),
            forall|i: int| from <= i < end ==> b@[i] != 0,
        ensures
            end < to ==> b@[end as int] == 0,
        decreases to - end,
    {
        end = end + 1;
    }
    let ghost field = b@.subrange(from as int, to as int);
    proof {
        assert forall|i: int| 0 <= i < end - from implies field[i] != 0 by {
            assert(field[i] == b@[from + i]);
        }
        lemma_before_nul(field, end - from);
        assert(field.take(end - from) =~= b@.subrange(from as int, end as int));
        assert forall|other: int|
            from <= other <= to && (forall|i: int| from <= i < other ==> b@[i] != 0) && (other < to
                ==> b@[other] == 0) implies other == end by {
            if other < end {
                assert(b@[other] != 0);
            }
            if end < other {
                assert(b@[end as int] != 0);
            }
        }
    }
    from_utf8_lossy(&b[from..end])
}

} // verus!
