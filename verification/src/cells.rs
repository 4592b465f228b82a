//! The generic, JSON-safe scalar model for query results, and the layered
//! coercion that turns a raw engine cell into one scalar: text first, then
//! 64-bit integer, then floating point, then null. A floating-point value
//! whose bits do not encode a finite number degrades to the integer zero.
use vstd::prelude::*;

verus! {

/// A JSON-safe scalar. `Float` carries the IEEE 754 bit pattern of a
/// finite 64-bit floating-point number, so that the scalar model itself
/// stays within exactly representable values.
#[derive(Debug, Clone, PartialEq)]
pub enum CellValue {
    Null,
    Text(String),
    Integer(i64),
    Float(u64),
}

/// The outcome of reading one result cell from the engine, before any
/// coercion policy is applied. `text_ok` records whether the textual read
/// was accepted at all; `text` is its value (absent for an SQL NULL). The
/// integer and floating-point reads are attempted only after a rejected
/// textual read.
#[derive(Debug, Clone, PartialEq)]
pub struct RawCell {
    pub text_ok: bool,
    pub text: Option<String>,
    pub int: Option<i64>,
    pub real_bits: Option<u64>,
}

/// One column description as reported by the engine's table introspection:
/// name, declared type, a not-null marker and a primary-key marker.
#[derive(Debug, Clone, PartialEq)]
pub struct RawColumn {
    pub name: String,
    pub data_type: String,
    pub notnull: i64,
    pub pk: i64,
}

/// An uninterpreted query result: column names and rows of raw cells.
#[derive(Debug, Clone, PartialEq)]
pub struct RawTable {
    pub columns: Vec<String>,
    pub rows: Vec<Vec<RawCell>>,
}

/// Whether a 64-bit IEEE 754 bit pattern encodes a finite number: finite
/// means the exponent field is not all ones.
pub open spec fn is_finite_bits(bits: u64) -> bool {
    (bits >> 52) & 0x7ff != 0x7ff
}

/// The coercion order: an accepted text read wins (its absent value is an
/// SQL NULL); otherwise an integer read; otherwise a floating-point read,
/// degraded to integer zero when not finite; otherwise null.
pub open spec fn coerce_spec(c: RawCell) -> CellValue {
    if c.text_ok {
        match c.text {
            Some(s) => CellValue::Text(s),
            None => CellValue::Null,
        }
    } else if c.int is Some {
        CellValue::Integer(c.int->0)
    } else if c.real_bits is Some {
        if is_finite_bits(c.real_bits->0) {
            CellValue::Float(c.real_bits->0)
        } else {
            CellValue::Integer(0)
        }
    } else {
        CellValue::Null
    }
}

/// Applies the text-first coercion order to one raw cell.
pub fn coerce_cell(c: RawCell) -> (r: CellValue)
    ensures
        r == coerce_spec(c),
{
    if c.text_ok {
        match c.text {
            Some(s) => CellValue::Text(s),
            None => CellValue::Null,
        }
    } else if let Some(n) = c.int {
        CellValue::Integer(n)
    } else if let Some(bits) = c.real_bits {
        if (bits >> 52) & 0x7ff != 0x7ff {
            CellValue::Float(bits)
        } else {
            CellValue::Integer(0)
        }
    } else {
        CellValue::Null
    }
}

/// A scalar safe to hand to a JSON encoder: a floating-point cell always
/// carries the bits of a finite number (coercion substitutes integer zero
/// for anything else).
pub open spec fn cell_json_safe(c: CellValue) -> bool {
    c matches CellValue::Float(b) ==> is_finite_bits(b)
}

pub open spec fn row_coerced(raw: Seq<RawCell>, out: Seq<CellValue>) -> bool {
    out.len() == raw.len() && forall|i: int| 0 <= i < raw.len() ==> out[i] == coerce_spec(raw[i])
}

pub open spec fn rows_coerced(raw: Seq<Seq<RawCell>>, out: Seq<Seq<CellValue>>) -> bool {
    out.len() == raw.len() && forall|i: int|
        0 <= i < raw.len() ==> #[trigger] row_coerced(raw[i], out[i])
}

/// Every cell of a coerced row set is JSON-safe: the coercion never
/// produces a floating-point cell with non-finite bits.
pub proof fn lemma_coerced_rows_json_safe(raw: Seq<Seq<RawCell>>, out: Seq<Seq<CellValue>>)
    requires
        rows_coerced(raw, out),
    ensures
        forall|i: int, j: int|
            0 <= i < out.len() && 0 <= j < out[i].len() ==> cell_json_safe(#[trigger] out[i][j]),
{
    assert forall|i: int, j: int|
        0 <= i < out.len() && 0 <= j < out[i].len() implies cell_json_safe(
        #[trigger] out[i][j]) by {
        assert(row_coerced(raw[i], out[i]));
        assert(out[i][j] == coerce_spec(raw[i][j]));
    }
}

fn coerce_row(raw: Vec<RawCell>) -> (r: Vec<CellValue>)
    ensures
        row_coerced(raw@, r@),
{
    let ghost rawv = raw@;
    let mut cells = raw;
    let mut out: Vec<CellValue> = Vec::new();
    proof {
        assert(rawv.skip(0) =~= rawv);
    }
    while cells.len() > 0
        invariant
            out@.len() + cells@.len() == rawv.len(),
            cells@ == rawv.skip(out@.len() as int),
            forall|j: int| 0 <= j < out@.len() ==> out@[j] == coerce_spec(rawv[j]),
        decreases cells.len(),
    {
        let ghost k = out@.len() as int;
        let c = cells.remove(0);
        proof {
            assert(rawv.skip(k)[0] == rawv[k]);
            assert(rawv.skip(k).remove(0) =~= rawv.skip(k + 1));
        }
        out.push(coerce_cell(c));
    }
    out
}

/// Coerces every cell of every row, preserving shape and order.
pub fn rows_from_raw(raw: Vec<Vec<RawCell>>) -> (r: Vec<Vec<CellValue>>)
    ensures
        rows_coerced(raw@.map_values(|row: Vec<RawCell>| row@), r@.map_values(|row: Vec<CellValue>| row@)),
{
    let ghost rawv = raw@.map_values(|row: Vec<RawCell>| row@);
    let mut rows = raw;
    let mut out: Vec<Vec<CellValue>> = Vec::new();
    proof {
        assert(rows@.map_values(|row: Vec<RawCell>| row@) =~= rawv.skip(0));
    }
    while rows.len() > 0
        invariant
            out@.len() + rows@.len() == rawv.len(),
            rows@.map_values(|row: Vec<RawCell>| row@) == rawv.skip(out@.len() as int),
            forall|j: int|
                0 <= j < out@.len() ==> #[trigger] row_coerced(rawv[j], out@[j]@),
        decreases rows.len(),
    {
        let ghost k = out@.len() as int;
        let ghost prev = rows@;
        let ghost prev_map = rows@.map_values(|row: Vec<RawCell>| row@);
        let row = rows.remove(0);
        proof {
            assert(prev_map[0] == prev[0]@);
            assert(row@ == rawv[k]);
            let new_map = rows@.map_values(|row: Vec<RawCell>| row@);
            assert forall|i: int| 0 <= i < rows@.len() implies #[trigger] new_map[i] == rawv.skip(
                k + 1,
            )[i] by {
                assert(rows@[i] == prev[i + 1]);
                assert(prev_map[i + 1] == prev[i + 1]@);
                assert(new_map[i] == rows@[i]@);
            }
            assert(new_map =~= rawv.skip(k + 1));
            assert(rows@.map_values(|row: Vec<RawCell>| row@) == rawv.skip(k + 1));
        }
        out.push(coerce_row(row));
    }
    proof {
        let outv = out@.map_values(|row: Vec<CellValue>| row@);
        assert forall|j: int| 0 <= j < rawv.len() implies #[trigger] row_coerced(
            rawv[j],
            outv[j],
        ) by {
            assert(outv[j] == out@[j]@);
        }
    }
    out
}

} // verus!
