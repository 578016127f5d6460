//! Loading the opcode table from tabular text. The byte stream is split
//! into records by the csv crate behind a trusted wrapper; everything
//! after that — parsing the opcode and size fields, checking each
//! record's shape, building the descriptors — is verified. The opcode
//! field may be decimal or hexadecimal (with a `0x` or `0X` prefix); the
//! size field is decimal and must be at least 1, so that every loaded
//! table is well formed.

use vstd::prelude::*;
use vstd::string::StrSliceExecFns;
use crate::table::{Instruction, wf_table};

verus! {

/// Why a table failed to load: the byte stream was not well-formed
/// tabular text, or a record of it (0-based, counted after the header)
/// had too few fields or an unparseable opcode or size field.
#[derive(Clone, Copy, Debug, PartialEq, Eq, Structural)]
pub enum TableLoadError {
    Syntax,
    BadRow { row: usize },
}

/// `c` is a decimal digit.
pub open spec fn is_dec_digit(c: char) -> bool {
    '0' as int <= c as int <= '9' as int
}

/// The value of a decimal digit.
pub open spec fn dec_digit_val(c: char) -> int {
    c as int - '0' as int
}

/// Every character of `s` is a decimal digit.
pub open spec fn all_dec_digits(s: Seq<char>) -> bool {
    forall|i: int| 0 <= i < s.len() ==> is_dec_digit(#[trigger] s[i])
}

/// The value of `s` read as a decimal numeral. Meaningful only when all
/// characters are digits.
pub open spec fn dec_val(s: Seq<char>) -> int
    decreases s.len(),
{
    if s.len() == 0 {
        0
    } else {
        dec_val(s.drop_last()) * 10 + dec_digit_val(s.last())
    }
}

/// `c` is a hexadecimal digit.
pub open spec fn is_hex_digit(c: char) -> bool {
    ||| is_dec_digit(c)
    ||| 'a' as int <= c as int <= 'f' as int
    ||| 'A' as int <= c as int <= 'F' as int
}

/// The value of a hexadecimal digit.
pub open spec fn hex_digit_val(c: char) -> int {
    if is_dec_digit(c) {
        c as int - '0' as int
    } else if 'a' as int <= c as int <= 'f' as int {
        c as int - 'a' as int + 10
    } else {
        c as int - 'A' as int + 10
    }
}

/// Every character of `s` is a hexadecimal digit.
pub open spec fn all_hex_digits(s: Seq<char>) -> bool {
    forall|i: int| 0 <= i < s.len() ==> is_hex_digit(#[trigger] s[i])
}

/// The value of `s` read as a hexadecimal numeral. Meaningful only when
/// all characters are hexadecimal digits.
pub open spec fn hex_val(s: Seq<char>) -> int
    decreases s.len(),
{
    if s.len() == 0 {
        0
    } else {
        hex_val(s.drop_last()) * 16 + hex_digit_val(s.last())
    }
}

/// The value of an opcode field: a decimal numeral, or a hexadecimal one
/// behind a `0x` or `0X` prefix; nothing when the field is neither.
pub open spec fn opcode_field_val(s: Seq<char>) -> Option<int> {
    if s.len() >= 2 && s[0] == '0' && (s[1] == 'x' || s[1] == 'X') {
        let t = s.subrange(2, s.len() as int);
        if t.len() > 0 && all_hex_digits(t) {
            Some(hex_val(t))
        } else {
            None
        }
    } else if s.len() > 0 && all_dec_digits(s) {
        Some(dec_val(s))
    } else {
        None
    }
}

/// The value of a size field: a decimal numeral only.
pub open spec fn size_field_val(s: Seq<char>) -> Option<int> {
    if s.len() > 0 && all_dec_digits(s) {
        Some(dec_val(s))
    } else {
        None
    }
}

/// A decimal numeral's value is never negative.
proof fn lemma_dec_val_nonneg(s: Seq<char>)
    requires
        all_dec_digits(s),
    ensures
        dec_val(s) >= 0,
    decreases s.len(),
{
    if s.len() > 0 {
        lemma_dec_val_nonneg(s.drop_last());
    }
}

/// Extending a decimal numeral by one digit multiplies its value by ten
/// and adds the digit.
proof fn lemma_dec_val_step(s: Seq<char>, i: int)
    requires
        0 <= i < s.len(),
    ensures
        dec_val(s.subrange(0, i + 1)) == dec_val(s.subrange(0, i)) * 10 + dec_digit_val(s[i]),
{
    let a = s.subrange(0, i + 1);
    assert(a.drop_last() =~= s.subrange(0, i));
    assert(a.last() == s[i]);
}

/// A decimal numeral's value is at least the value of any of its
/// prefixes.
proof fn lemma_dec_val_ge_prefix(s: Seq<char>, i: int)
    requires
        all_dec_digits(s),
        0 <= i <= s.len(),
    ensures
        dec_val(s) >= dec_val(s.subrange(0, i)) >= 0,
    decreases s.len() - i,
{
    assert(all_dec_digits(s.subrange(0, i)));
    lemma_dec_val_nonneg(s.subrange(0, i));
    if i == s.len() {
        assert(s.subrange(0, i) =~= s);
    } else {
        lemma_dec_val_step(s, i);
        lemma_dec_val_ge_prefix(s, i + 1);
    }
}

/// A hexadecimal numeral's value is never negative.
proof fn lemma_hex_val_nonneg(s: Seq<char>)
    requires
        all_hex_digits(s),
    ensures
        hex_val(s) >= 0,
    decreases s.len(),
{
    if s.len() > 0 {
        lemma_hex_val_nonneg(s.drop_last());
    }
}

/// Extending a hexadecimal numeral by one digit multiplies its value by
/// sixteen and adds the digit.
proof fn lemma_hex_val_step(s: Seq<char>, i: int)
    requires
        0 <= i < s.len(),
    ensures
        hex_val(s.subrange(0, i + 1)) == hex_val(s.subrange(0, i)) * 16 + hex_digit_val(s[i]),
{
    let a = s.subrange(0, i + 1);
    assert(a.drop_last() =~= s.subrange(0, i));
    assert(a.last() == s[i]);
}

/// A hexadecimal numeral's value is at least the value of any of its
/// prefixes.
proof fn lemma_hex_val_ge_prefix(s: Seq<char>, i: int)
    requires
        all_hex_digits(s),
        0 <= i <= s.len(),
    ensures
        hex_val(s) >= hex_val(s.subrange(0, i)) >= 0,
    decreases s.len() - i,
{
    assert(all_hex_digits(s.subrange(0, i)));
    lemma_hex_val_nonneg(s.subrange(0, i));
    if i == s.len() {
        assert(s.subrange(0, i) =~= s);
    } else {
        lemma_hex_val_step(s, i);
        lemma_hex_val_ge_prefix(s, i + 1);
    }
}

/// Parses an opcode field to an 8-bit value: decimal, or hexadecimal
/// behind a `0x`/`0X` prefix. Nothing when the field is malformed or its
/// value exceeds 255.
#[verifier::loop_isolation(false)]
pub fn parse_opcode_field(s: &str) -> (r: Option<u8>)
    ensures
        match r {
            Some(b) => opcode_field_val(s@) == Some(b as int),
            None => opcode_field_val(s@) is None || opcode_field_val(s@).unwrap() > 255,
        },
{
    let n = s.unicode_len();
    if n >= 2 && s.get_char(0) == '0' && (s.get_char(1) == 'x' || s.get_char(1) == 'X') {
        let ghost t = s@.subrange(2, n as int);
        if n == 2 {
            return None;
        }
        let mut acc: u16 = 0;
        let mut i: usize = 2;
        while i < n
            invariant
                2 <= i <= n,
                n == s@.len(),
                t == s@.subrange(2, n as int),
                all_hex_digits(t.subrange(0, i - 2)),
                acc as int == hex_val(t.subrange(0, i - 2)),
                acc <= 255,
            decreases n - i,
        {
            let c = s.get_char(i);
            let u = c as u32;
            proof {
                assert(t[i - 2] == s@[i as int]);
            }
            let d: u16;
            if u >= 48 && u <= 57 {
                d = (u - 48) as u16;
            } else if u >= 97 && u <= 102 {
                d = (u - 97 + 10) as u16;
            } else if u >= 65 && u <= 70 {
                d = (u - 65 + 10) as u16;
            } else {
                proof {
                    assert(!is_hex_digit(t[i - 2]));
                }
                return None;
            }
            proof {
                lemma_hex_val_step(t, i - 2);
                assert(t.subrange(0, i - 2 + 1) =~= t.subrange(0, (i + 1) - 2));
            }
            acc = acc * 16 + d;
            i = i + 1;
            if acc > 255 {
                proof {
                    if all_hex_digits(t) {
                        lemma_hex_val_ge_prefix(t, i - 2);
                    }
                }
                return None;
            }
        }
        proof {
            assert(t.subrange(0, i - 2) =~= t);
        }
        Some(acc as u8)
    } else {
        if n == 0 {
            return None;
        }
        let mut acc: u16 = 0;
        let mut i: usize = 0;
        while i < n
            invariant
                i <= n,
                n == s@.len(),
                all_dec_digits(s@.subrange(0, i as int)),
                acc as int == dec_val(s@.subrange(0, i as int)),
                acc <= 255,
            decreases n - i,
        {
            let c = s.get_char(i);
            let u = c as u32;
            if u < 48 || u > 57 {
                proof {
                    assert(!is_dec_digit(s@[i as int]));
                }
                return None;
            }
            let d = (u - 48) as u16;
            proof {
                lemma_dec_val_step(s@, i as int);
            }
            acc = acc * 10 + d;
            i = i + 1;
            if acc > 255 {
                proof {
                    if all_dec_digits(s@) {
                        lemma_dec_val_ge_prefix(s@, i as int);
                    }
                }
                return None;
            }
        }
        proof {
            assert(s@.subrange(0, i as int) =~= s@);
        }
        Some(acc as u8)
    }
}

/// Parses a size field: a decimal numeral that fits the machine's word.
/// Nothing when the field is malformed or its value does not fit.
#[verifier::loop_isolation(false)]
pub fn parse_size_field(s: &str) -> (r: Option<usize>)
    ensures
        match r {
            Some(v) => size_field_val(s@) == Some(v as int),
            None => size_field_val(s@) is None || size_field_val(s@).unwrap() > usize::MAX,
        },
{
    let n = s.unicode_len();
    if n == 0 {
        return None;
    }
    let mut acc: usize = 0;
    let mut i: usize = 0;
    while i < n
        invariant
            i <= n,
            n == s@.len(),
            all_dec_digits(s@.subrange(0, i as int)),
            acc as int == dec_val(s@.subrange(0, i as int)),
        decreases n - i,
    {
        let c = s.get_char(i);
        let u = c as u32;
        if u < 48 || u > 57 {
            proof {
                assert(!is_dec_digit(s@[i as int]));
            }
            return None;
        }
        let d = (u - 48) as usize;
        proof {
            lemma_dec_val_step(s@, i as int);
        }
        if acc > usize::MAX / 10 || (acc == usize::MAX / 10 && d > usize::MAX % 10) {
            proof {
                assert(acc * 10 + d > usize::MAX);
                if all_dec_digits(s@) {
                    lemma_dec_val_ge_prefix(s@, i + 1);
                }
            }
            return None;
        }
        proof {
            assert(acc * 10 + d <= usize::MAX);
        }
        acc = acc * 10 + d;
        i = i + 1;
    }
    proof {
        assert(s@.subrange(0, i as int) =~= s@);
    }
    Some(acc)
}

/// The error type of the csv crate, carried through opaquely.
#[verifier::external_type_specification]
#[verifier::external_body]
pub struct ExCsvError(csv::Error);

/// What csv's reader makes of a byte stream: the records after the
/// header row, each record a sequence of fields — a function of the
/// bytes alone — or nothing where the stream is malformed.
pub uninterp spec fn csv_rows(data: Seq<u8>) -> Option<Seq<Seq<Seq<char>>>>;

/// Relies on csv::ReaderBuilder::from_reader and csv::Reader::records:
/// with the default configuration the first record is read as a header
/// and skipped, every later record is split into its fields, and the
/// first malformed record fails the whole read. The outcome is a
/// function of the bytes alone.
#[verifier::external_body]
fn read_csv_rows(data: &[u8]) -> (r: Result<Vec<Vec<String>>, csv::Error>)
    ensures
        match r {
            Ok(rows) => csv_rows(data@) == Some(rows.deep_view()),
            Err(_) => csv_rows(data@) is None,
        },
{
    let mut reader = csv::ReaderBuilder::new().from_reader(data);
    let mut rows: Vec<Vec<String>> = Vec::new();
    for result in reader.records() {
        match result {
            Ok(record) => rows.push(record.iter().map(|field| field.to_string()).collect()),
            Err(e) => return Err(e),
        }
    }
    Ok(rows)
}

/// A record parses to a descriptor: at least three fields, an opcode
/// field worth at most 255, and a size field worth at least 1 that fits
/// the machine's word.
pub open spec fn row_ok(row: Seq<Seq<char>>) -> bool {
    &&& row.len() >= 3
    &&& opcode_field_val(row[0]) is Some
    &&& 0 <= opcode_field_val(row[0]).unwrap() <= 255
    &&& size_field_val(row[2]) is Some
    &&& 1 <= size_field_val(row[2]).unwrap() <= usize::MAX
}

/// The descriptor a record parses to.
pub open spec fn instr_matches_row(instr: Instruction, row: Seq<Seq<char>>) -> bool {
    &&& instr.opcode as int == opcode_field_val(row[0]).unwrap()
    &&& instr.name@ == row[1]
    &&& instr.size as int == size_field_val(row[2]).unwrap()
}

/// Loads an opcode table from tabular text: splits the bytes into
/// records behind the csv wrapper, then parses each record's opcode,
/// mnemonic and size fields into a descriptor, in record order. Fails on
/// a malformed byte stream, and on the first record that does not parse;
/// every table returned is well formed.
#[verifier::loop_isolation(false)]
pub fn parse_instructions(data: &[u8]) -> (r: Result<Vec<Instruction>, TableLoadError>)
    ensures
        match r {
            Ok(table) => {
                &&& csv_rows(data@) is Some
                &&& {
                    let rows = csv_rows(data@).unwrap();
                    &&& table@.len() == rows.len()
                    &&& forall|k: int| 0 <= k < rows.len() ==> row_ok(#[trigger] rows[k])
                    &&& forall|k: int|
                        0 <= k < rows.len() ==> instr_matches_row(#[trigger] table@[k], rows[k])
                }
                &&& wf_table(table@)
            },
            Err(e) => match e {
                TableLoadError::Syntax => csv_rows(data@) is None,
                TableLoadError::BadRow { row } => {
                    &&& csv_rows(data@) is Some
                    &&& {
                        let rows = csv_rows(data@).unwrap();
                        &&& row < rows.len()
                        &&& !row_ok(rows[row as int])
                        &&& forall|k: int| 0 <= k < row ==> row_ok(#[trigger] rows[k])
                    }
                },
            },
        },
{
    let rows = match read_csv_rows(data) {
        Ok(rows) => rows,
        Err(_) => {
            return Err(TableLoadError::Syntax);
        },
    };
    let mut table: Vec<Instruction> = Vec::new();
    let mut k: usize = 0;
    while k < rows.len()
        invariant
            table@.len() == k,
            k <= rows@.len(),
            forall|t: int| 0 <= t < k ==> row_ok(#[trigger] rows.deep_view()[t]),
            forall|t: int|
                0 <= t < k ==> instr_matches_row(#[trigger] table@[t], rows.deep_view()[t]),
            forall|t: int| 0 <= t < k ==> (#[trigger] table@[t]).size >= 1,
        decreases rows@.len() - k,
    {
        let row = &rows[k];
        proof {
            assert(rows.deep_view()[k as int] =~= row.deep_view());
        }
        if row.len() < 3 {
            return Err(TableLoadError::BadRow { row: k });
        }
        let opcode = match parse_opcode_field(row[0].as_str()) {
            Some(b) => b,
            None => {
                return Err(TableLoadError::BadRow { row: k });
            },
        };
        let size = match parse_size_field(row[2].as_str()) {
            Some(v) => v,
            None => {
                return Err(TableLoadError::BadRow { row: k });
            },
        };
        if size == 0 {
            return Err(TableLoadError::BadRow { row: k });
        }
        let name = row[1].clone();
        table.push(Instruction { opcode, name, size });
        k = k + 1;
    }
    Ok(table)
}

} // verus!
