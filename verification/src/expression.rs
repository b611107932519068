//! Cron expressions as the scheduler accepts them.
//!
//! Job definitions carry the classic five-field crontab form (minute, hour,
//! day of month, month, day of week) or the longer form that starts with a
//! seconds field. The trigger engine only reads the longer form, so a
//! five-field expression is given a seconds field of `0` before it is parsed:
//! it then fires at the start of each minute it names.
//!
//! Not every text may be handed to the engine. Its parser stops the process
//! on a period with a step of zero, and a trigger that is limited to certain
//! years can stop the process when it is ticked. Such expressions are
//! refused here, before the engine sees them: `registrable` says which
//! remain.

use vstd::prelude::*;
use vstd::string::*;
use vstd::utf8::encode_utf8;

verus! {

/// The bytes that separate the fields of an expression: space, tab, line
/// feed and carriage return.
pub open spec fn is_blank(byte: u8) -> bool {
    byte == 32 || byte == 9 || byte == 10 || byte == 13
}

/// A field starts at `i` when that byte is not blank and the one before it,
/// if any, is.
pub open spec fn starts_field(bytes: Seq<u8>, i: int) -> bool {
    &&& 0 <= i < bytes.len()
    &&& !is_blank(bytes[i])
    &&& (i == 0 || is_blank(bytes[i - 1]))
}

/// The number of fields in `bytes`: of maximal runs of bytes that are not
/// blank.
pub open spec fn field_count(bytes: Seq<u8>) -> nat
    decreases bytes.len(),
{
    if bytes.len() == 0 {
        0
    } else {
        field_count(bytes.drop_last()) + if starts_field(bytes, bytes.len() - 1) {
            1nat
        } else {
            0nat
        }
    }
}

/// The expression with a seconds field of `0` in front.
pub open spec fn with_seconds(expression: Seq<char>) -> Seq<char> {
    seq!['0', ' '] + expression
}

/// The form in which an expression is handed to the trigger engine.
pub open spec fn engine_form(expression: Seq<char>) -> Seq<char> {
    if field_count(encode_utf8(expression)) == 5 {
        with_seconds(expression)
    } else {
        expression
    }
}

/// Counts the fields of `expression`.
pub fn count_fields(expression: &str) -> (count: usize)
    ensures
        count == field_count(encode_utf8(expression@)),
{
    let bytes = expression.as_bytes();
    let mut count: usize = 0;
    let mut in_field = false;
    let mut i: usize = 0;
    assert(bytes@.take(0) =~= Seq::<u8>::empty());
    while i < bytes.len()
        invariant
            i <= bytes.len(),
            count <= i,
            count == field_count(bytes@.take(i as int)),
            in_field == (i > 0 && !is_blank(bytes@[i - 1])),
        decreases bytes.len() - i,
    {
        let byte = bytes[i];
        let blank = byte == 32 || byte == 9 || byte == 10 || byte == 13;
        proof {
            let longer = bytes@.take(i + 1);
            assert(longer.drop_last() =~= bytes@.take(i as int));
            assert(starts_field(longer, i as int) == (!blank && !in_field));
        }
        if !blank && !in_field {
            count += 1;
        }
        in_field = !blank;
        i += 1;
    }
    assert(bytes@.take(i as int) =~= bytes@);
    count
}

/// Puts `expression` into the form that the trigger engine reads: five
/// fields get a seconds field of `0` in front, anything else stays as it is.
pub fn engine_expression(expression: &str) -> (normal: String)
    ensures
        normal@ == engine_form(expression@),
{
    if count_fields(expression) == 5 {
        let mut normal = String::from_str("0 ");
        proof {
            reveal_strlit("0 ");
            assert("0 "@ =~= seq!['0', ' ']);
        }
        normal.append(expression);
        normal
    } else {
        expression.to_owned()
    }
}

/// Whether a byte is a decimal digit.
pub open spec fn is_digit(byte: u8) -> bool {
    48 <= byte <= 57
}

/// Whether a byte is a letter of the Latin alphabet.
pub open spec fn is_letter(byte: u8) -> bool {
    (65 <= byte <= 90) || (97 <= byte <= 122)
}

/// The kind of token that a byte belongs to: 1 for a number, 2 for a name,
/// 3 for the star, 0 for everything that begins no field.
pub open spec fn token_kind(byte: u8) -> int {
    if is_digit(byte) {
        1
    } else if is_letter(byte) {
        2
    } else if byte == 42 {
        3
    } else {
        0
    }
}

/// Whether a token begins at `i` right behind another token, with no blank
/// between them: a number behind a name or a star, a name behind a number
/// or a star, a star behind anything of these. The engine's parser reads
/// two fields there, where counting by blanks sees one.
pub open spec fn glued_at(bytes: Seq<u8>, i: int) -> bool {
    &&& 0 < i < bytes.len()
    &&& token_kind(bytes[i]) != 0
    &&& token_kind(bytes[i - 1]) != 0
    &&& (token_kind(bytes[i]) != token_kind(bytes[i - 1]) || token_kind(bytes[i]) == 3)
}

/// Whether two tokens stand glued together somewhere in `bytes`.
pub open spec fn is_glued(bytes: Seq<u8>) -> bool {
    exists|i: int| glued_at(bytes, i)
}

/// The first index at or behind `from` whose byte is not blank.
pub open spec fn skip_blanks(bytes: Seq<u8>, from: int) -> int
    decreases bytes.len() - from,
{
    if 0 <= from < bytes.len() && is_blank(bytes[from]) {
        skip_blanks(bytes, from + 1)
    } else {
        from
    }
}

/// Whether a number starts at `from` that is written with zeros only.
pub open spec fn zero_run(bytes: Seq<u8>, from: int) -> bool
    decreases bytes.len() - from,
{
    &&& 0 <= from < bytes.len()
    &&& bytes[from] == 48
    &&& (from + 1 >= bytes.len() || !is_digit(bytes[from + 1]) || zero_run(bytes, from + 1))
}

/// Whether a slash stands at `i` and the step behind it is zero.
pub open spec fn zero_step_at(bytes: Seq<u8>, i: int) -> bool {
    &&& 0 <= i < bytes.len()
    &&& bytes[i] == 47
    &&& zero_run(bytes, skip_blanks(bytes, i + 1))
}

/// Whether some period in `bytes` has a step of zero.
pub open spec fn has_zero_step(bytes: Seq<u8>) -> bool {
    exists|i: int| zero_step_at(bytes, i)
}

/// Whether an expression may be handed to the trigger engine: no period
/// has a step of zero, no two tokens are glued together, and there are at
/// most six fields, so that no field is left to name years.
pub open spec fn registrable(expression: Seq<char>) -> bool {
    let bytes = encode_utf8(expression);
    &&& !has_zero_step(bytes)
    &&& !is_glued(bytes)
    &&& field_count(bytes) <= 6
}

fn kind_of(byte: u8) -> (kind: u8)
    ensures
        kind == token_kind(byte),
{
    if 48 <= byte && byte <= 57 {
        1
    } else if (65 <= byte && byte <= 90) || (97 <= byte && byte <= 122) {
        2
    } else if byte == 42 {
        3
    } else {
        0
    }
}

fn first_non_blank(bytes: &[u8], from: usize) -> (at: usize)
    requires
        from <= bytes.len(),
    ensures
        at == skip_blanks(bytes@, from as int),
        from <= at <= bytes.len(),
{
    let mut at = from;
    while at < bytes.len() && (bytes[at] == 32 || bytes[at] == 9 || bytes[at] == 10 || bytes[at]
        == 13)
        invariant
            from <= at <= bytes.len(),
            skip_blanks(bytes@, from as int) == skip_blanks(bytes@, at as int),
        decreases bytes.len() - at,
    {
        at += 1;
    }
    at
}

fn starts_zero_run(bytes: &[u8], from: usize) -> (zero: bool)
    requires
        from <= bytes.len(),
    ensures
        zero == zero_run(bytes@, from as int),
{
    if from >= bytes.len() || bytes[from] != 48 {
        return false;
    }
    let mut at = from;
    loop
        invariant
            from <= at < bytes.len(),
            bytes@[at as int] == 48,
            zero_run(bytes@, from as int) == zero_run(bytes@, at as int),
        decreases bytes.len() - at,
    {
        if at + 1 >= bytes.len() {
            return true;
        }
        let next = bytes[at + 1];
        if !(48 <= next && next <= 57) {
            return true;
        }
        if next != 48 {
            assert(!zero_run(bytes@, at + 1));
            return false;
        }
        at += 1;
    }
}

/// Whether `expression` may be handed to the trigger engine.
pub fn is_registrable(expression: &str) -> (safe: bool)
    ensures
        safe == registrable(expression@),
{
    let bytes = expression.as_bytes();
    let mut i: usize = 0;
    while i < bytes.len()
        invariant
            i <= bytes.len(),
            bytes@ == encode_utf8(expression@),
            forall|k: int| 0 <= k < i ==> !zero_step_at(bytes@, k) && !glued_at(bytes@, k),
        decreases bytes.len() - i,
    {
        if bytes[i] == 47 {
            let behind = first_non_blank(bytes, i + 1);
            if starts_zero_run(bytes, behind) {
                assert(zero_step_at(bytes@, i as int));
                return false;
            }
        }
        if i > 0 {
            let kind = kind_of(bytes[i]);
            let before = kind_of(bytes[i - 1]);
            if kind != 0 && before != 0 && (kind != before || kind == 3) {
                assert(glued_at(bytes@, i as int));
                return false;
            }
        }
        i += 1;
    }
    assert(!has_zero_step(bytes@));
    assert(!is_glued(bytes@));
    count_fields(expression) <= 6
}

} // verus!
