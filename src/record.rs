//! Record layouts of the dataset families, and the decoding of one record, or
//! of a whole file of records, into bitmaps and character labels.

use vstd::prelude::*;
use vstd::slice::slice_to_vec;
use crate::bitmap::{bmp_bytes, lemma_header_size, supported_depth, to_bmp};
use crate::flip::{flip_rows, vertically_flip_image};
use crate::normalize::{shift_6bpp_image, unpack_6bpp};

verus! {

/// The character encoding that a record's label code belongs to.
#[derive(Clone, Copy, Debug, PartialEq, Eq, Structural)]
pub enum CodeTable {
    /// JIS X 0201, one byte.
    X0201,
    /// The CO-59 newspaper code, two 6-bit halves.
    Co59,
    /// JIS X 0208, two bytes, big-endian.
    X0208,
}

/// The encoded label of a record: a code in one of the encodings.
#[derive(Clone, Copy, Debug, PartialEq, Eq, Structural)]
pub struct LabelCode {
    pub table: CodeTable,
    pub code: u16,
}

/// The fixed layout of the records of one dataset family.
#[derive(Clone, Copy, Debug)]
pub struct Parser {
    pub bytes_per_record: usize,
    pub image_bytes_start: usize,
    pub bits_per_pixel: u8,
    pub width: u8,
    pub height: u8,
    pub label_table: CodeTable,
    pub label_offset: usize,
}

/// One decoded record: its character and its bitmap file.
#[derive(Clone, Debug)]
pub struct DecodedRecord {
    pub character: char,
    pub image: Vec<u8>,
}

impl Parser {
    /// The length of the packed pixel region of a record.
    pub open spec fn image_len(&self) -> nat {
        (self.bits_per_pixel * self.width * self.height / 8) as nat
    }

    /// The bytes of one row of pixel data, once the samples are unpacked.
    pub open spec fn row_stride(&self) -> nat {
        if self.bits_per_pixel == 6 {
            self.width as nat
        } else {
            (self.width as int / (8int / self.bits_per_pixel as int)) as nat
        }
    }

    /// A layout that the decoder can work with: a supported depth, whole rows
    /// of whole bytes, and the pixel region and label inside the record.
    pub open spec fn wf(&self) -> bool {
        &&& supported_depth(self.bits_per_pixel)
        &&& self.width > 0
        &&& self.height > 0
        &&& if self.bits_per_pixel == 6 {
            (self.width * self.height) % 4 == 0
        } else {
            (self.width * self.bits_per_pixel) % 8 == 0
        }
        &&& self.image_bytes_start + self.image_len() <= self.bytes_per_record
        &&& self.label_offset + 2 <= self.bytes_per_record
    }

    /// Whether the layout is well formed.
    pub fn is_valid(&self) -> (r: bool)
        ensures
            r == self.wf(),
    {
        let bpp = self.bits_per_pixel as u64;
        let w = self.width as u64;
        let h = self.height as u64;
        if !(bpp == 1 || bpp == 4 || bpp == 6) || w == 0 || h == 0 {
            return false;
        }
        assert(w * h <= 255 * 255 && bpp * w * h <= 6 * 255 * 255 && w * bpp <= 6 * 255)
            by (nonlinear_arith)
            requires
                w <= 255,
                h <= 255,
                bpp <= 6,
        ;
        let aligned = if bpp == 6 {
            (w * h) % 4 == 0
        } else {
            (w * bpp) % 8 == 0
        };
        if !aligned {
            return false;
        }
        let len = (bpp * w * h / 8) as usize;
        assert(len == self.image_len());
        if self.image_bytes_start > self.bytes_per_record || len > self.bytes_per_record
            - self.image_bytes_start {
            return false;
        }
        self.label_offset < self.bytes_per_record && 2 <= self.bytes_per_record - self.label_offset
    }

    /// The index of the last byte of the pixel region.
    pub fn image_bytes_end(&self) -> (r: usize)
        requires
            self.wf(),
        ensures
            r == self.image_bytes_start + self.image_len() - 1,
    {
        proof {
            self.lemma_region_sizes();
        }
        self.image_bytes_start + (self.bits_per_pixel as usize) * (self.width as usize) * (
        self.height as usize) / 8 - 1
    }

    /// The sizes that a well-formed layout gives to each stage of decoding.
    proof fn lemma_region_sizes(&self)
        requires
            self.wf(),
        ensures
            self.image_len() >= 1,
            self.bits_per_pixel * self.width * self.height <= 6 * 255 * 255,
            self.bits_per_pixel == 6 ==> self.image_len() % 3 == 0 && self.image_len() / 3 * 4
                == self.width * self.height,
            1 <= self.row_stride() <= 255,
            self.bits_per_pixel == 6 ==> (self.width * self.height) % (self.row_stride() as int)
                == 0,
            self.bits_per_pixel != 6 ==> self.image_len() % self.row_stride() == 0,
    {
        let b = self.bits_per_pixel as int;
        let w = self.width as int;
        let h = self.height as int;
        assert(b * w * h <= 6 * 255 * 255) by (nonlinear_arith)
            requires
                1 <= b <= 6,
                0 <= w <= 255,
                0 <= h <= 255,
        ;
        if b == 6 {
            assert(6 * w * h / 8 >= 1 && (6 * w * h / 8) % 3 == 0 && (6 * w * h / 8) / 3 * 4 == w
                * h) by (nonlinear_arith)
                requires
                    (w * h) % 4 == 0,
                    w >= 1,
                    h >= 1,
            ;
            assert((w * h) % w == 0) by (nonlinear_arith)
                requires
                    w >= 1,
            ;
        } else {
            let s = w / (8int / b);
            let k = 8int / b;
            assert(k == 8 || k == 2);
            assert(w == k * s && b * w * h / 8 == s * h) by (nonlinear_arith)
                requires
                    b == 1 || b == 4,
                    k == 8int / b,
                    (w * b) % 8 == 0,
                    s == w / k,
            ;
            assert(s >= 1 && s <= 255 && (s * h) % s == 0 && s * h >= 1) by (nonlinear_arith)
                requires
                    w == k * s,
                    k == 8 || k == 2,
                    1 <= w <= 255,
                    h >= 1,
            ;
        }
    }
}

/// The label code of a record, read at the layout's label offset.
pub open spec fn label_code(p: Parser, record: Seq<u8>) -> LabelCode {
    let a = record[p.label_offset as int];
    let b = record[p.label_offset + 1];
    LabelCode {
        table: p.label_table,
        code: match p.label_table {
            CodeTable::X0201 => a as u16,
            CodeTable::Co59 => ((a / 4) * 256 + (a % 4) * 16 + b / 16) as u16,
            CodeTable::X0208 => (a * 256 + b) as u16,
        },
    }
}

/// The pixel data of a record's bitmap: the pixel region, unpacked to a byte
/// per sample when packed at 6 bits, with its rows in reverse order.
pub open spec fn record_pixels(p: Parser, record: Seq<u8>) -> Seq<u8> {
    let region = record.subrange(
        p.image_bytes_start as int,
        p.image_bytes_start + p.image_len(),
    );
    let samples = if p.bits_per_pixel == 6 {
        unpack_6bpp(region)
    } else {
        region
    };
    flip_rows(samples, p.row_stride())
}

/// The bitmap file of a record.
pub open spec fn record_bmp(p: Parser, record: Seq<u8>) -> Seq<u8> {
    bmp_bytes(record_pixels(p, record), p.bits_per_pixel, p.width, p.height)
}

/// What decoding a record may give with the lookup `lookup`: a bitmap and a
/// character that the lookup may return for the record's label code, or
/// nothing where the lookup may find no character for it.
pub open spec fn decoded_as<F: Fn(LabelCode) -> Option<char>>(
    p: Parser,
    record: Seq<u8>,
    lookup: F,
    outcome: Option<DecodedRecord>,
) -> bool {
    match outcome {
        Some(d) => lookup.ensures((label_code(p, record),), Some(d.character)) && d.image@
            == record_bmp(p, record),
        None => lookup.ensures((label_code(p, record),), None),
    }
}

/// Record `i` of a file.
pub open spec fn record_at(p: Parser, content: Seq<u8>, i: int) -> Seq<u8> {
    content.subrange(i * p.bytes_per_record, (i + 1) * p.bytes_per_record)
}

/// Bytes after the last whole record of a file change neither the number of
/// records that it holds nor any of those records.
pub proof fn lemma_trailing_bytes_ignored(p: Parser, content: Seq<u8>, extra: Seq<u8>)
    requires
        p.bytes_per_record > 0,
        content.len() % (p.bytes_per_record as nat) == 0,
        extra.len() < p.bytes_per_record,
    ensures
        (content + extra).len() as int / p.bytes_per_record as int == content.len() as int
            / p.bytes_per_record as int,
        forall|i: int|
            0 <= i < content.len() as int / p.bytes_per_record as int ==> #[trigger] record_at(
                p,
                content + extra,
                i,
            ) == record_at(p, content, i),
{
    let size = p.bytes_per_record as int;
    let q = content.len() as int / size;
    assert(content.len() == q * size) by (nonlinear_arith)
        requires
            q == content.len() as int / size,
            content.len() as int % size == 0,
            size > 0,
    ;
    vstd::arithmetic::div_mod::lemma_fundamental_div_mod_converse(
        (content + extra).len() as int,
        size,
        q,
        extra.len() as int,
    );
    assert forall|i: int| 0 <= i < q implies #[trigger] record_at(p, content + extra, i)
        == record_at(p, content, i) by {
        assert(0 <= i * size <= (i + 1) * size <= q * size) by (nonlinear_arith)
            requires
                0 <= i < q,
                size > 0,
        ;
        let a = i * p.bytes_per_record;
        let b = (i + 1) * p.bytes_per_record;
        assert(0 <= a <= b <= content.len());
        assert((content + extra).subrange(a, b) =~= content.subrange(a, b));
    }
}

/// Reads the label code of a record.
pub fn read_label_code(parser: &Parser, record: &[u8]) -> (r: LabelCode)
    requires
        parser.wf(),
        record@.len() == parser.bytes_per_record,
    ensures
        r == label_code(*parser, record@),
{
    let a = record[parser.label_offset] as u16;
    let b = record[parser.label_offset + 1] as u16;
    let code: u16 = match parser.label_table {
        CodeTable::X0201 => a,
        CodeTable::Co59 => (a / 4) * 256 + (a % 4) * 16 + b / 16,
        CodeTable::X0208 => a * 256 + b,
    };
    LabelCode { table: parser.label_table, code }
}

/// Decodes one record: the bitmap of its pixel region, and its character as
/// the lookup gives it for the record's label code; nothing where the lookup
/// finds no character.
pub fn decode_record<F: Fn(LabelCode) -> Option<char>>(
    parser: &Parser,
    record: &[u8],
    lookup: &F,
) -> (r: Option<DecodedRecord>)
    requires
        parser.wf(),
        record@.len() == parser.bytes_per_record,
        forall|c: LabelCode| lookup.requires((c,)),
    ensures
        decoded_as(*parser, record@, *lookup, r),
{
    let code = read_label_code(parser, record);
    let character = match lookup(code) {
        Some(c) => c,
        None => {
            return None;
        },
    };
    proof {
        parser.lemma_region_sizes();
    }
    let start = parser.image_bytes_start;
    let end = parser.image_bytes_end() + 1;
    let image_bytes = slice_to_vec(&record[start..end]);
    let pixels = if parser.bits_per_pixel == 6 {
        vertically_flip_image(shift_6bpp_image(image_bytes), parser.width)
    } else {
        vertically_flip_image(image_bytes, parser.width / (8 / parser.bits_per_pixel))
    };
    proof {
        assert(pixels@.len() <= 255 * 255);
        lemma_header_size(parser.bits_per_pixel);
    }
    let image = to_bmp(pixels, parser.bits_per_pixel, parser.width, parser.height);
    Some(DecodedRecord { character, image })
}

/// Decodes every whole record of a file, in order; trailing bytes that do not
/// fill a record are ignored.
pub fn decode_file<F: Fn(LabelCode) -> Option<char>>(
    parser: &Parser,
    content: &[u8],
    lookup: &F,
) -> (r: Vec<Option<DecodedRecord>>)
    requires
        parser.wf(),
        forall|c: LabelCode| lookup.requires((c,)),
    ensures
        r@.len() == content@.len() as int / parser.bytes_per_record as int,
        forall|i: int|
            0 <= i < r@.len() ==> decoded_as(
                *parser,
                #[trigger] record_at(*parser, content@, i),
                *lookup,
                r@[i],
            ),
{
    let size = parser.bytes_per_record;
    let count = content.len() / size;
    let mut out: Vec<Option<DecodedRecord>> = Vec::new();
    let mut i: usize = 0;
    while i < count
        invariant
            parser.wf(),
            forall|c: LabelCode| lookup.requires((c,)),
            size == parser.bytes_per_record,
            size > 0,
            count == content@.len() as int / size as int,
            i <= count,
            out@.len() == i,
            forall|k: int|
                0 <= k < i ==> decoded_as(
                    *parser,
                    #[trigger] record_at(*parser, content@, k),
                    *lookup,
                    out@[k],
                ),
        decreases count - i,
    {
        let n = content.len();
        assert(i * size + size <= n && (i + 1) * size == i * size + size) by (nonlinear_arith)
            requires
                i < count,
                count == n as int / size as int,
                size > 0,
        ;
        let offset = i * size;
        let record = &content[offset..offset + size];
        assert(record@ == record_at(*parser, content@, i as int));
        let decoded = decode_record(parser, record, lookup);
        out.push(decoded);
        i += 1;
    }
    out
}

/// A named dataset and the layout of its records.
#[derive(Clone, Copy, Debug)]
pub struct Dataset {
    pub name: &'static str,
    pub parser: Parser,
}

fn layout(
    bytes_per_record: usize,
    image_bytes_start: usize,
    bits_per_pixel: u8,
    width: u8,
    height: u8,
    label_table: CodeTable,
    label_offset: usize,
) -> (r: Parser)
    ensures
        r == (Parser {
            bytes_per_record,
            image_bytes_start,
            bits_per_pixel,
            width,
            height,
            label_table,
            label_offset,
        }),
{
    Parser {
        bytes_per_record,
        image_bytes_start,
        bits_per_pixel,
        width,
        height,
        label_table,
        label_offset,
    }
}

/// The datasets that are decoded, with the layouts of their families; every
/// layout is well formed.
pub fn dataset_layouts() -> (r: Vec<Dataset>)
    ensures
        r@.len() == 11,
        forall|i: int| 0 <= i < r@.len() ==> (#[trigger] r@[i]).parser.wf(),
{
    let etl1 = layout(2052, 32, 4, 64, 63, CodeTable::X0201, 6);
    let etl2 = layout(2745, 45, 6, 60, 60, CodeTable::Co59, 21);
    let etl3 = layout(2952, 216, 4, 72, 76, CodeTable::X0201, 9);
    let etl8b = layout(512, 8, 1, 64, 63, CodeTable::X0208, 2);
    let etl8g = layout(8199, 60, 4, 128, 127, CodeTable::X0208, 2);
    let etl9b = layout(576, 8, 1, 64, 63, CodeTable::X0208, 2);
    let etl9g = layout(8199, 64, 4, 128, 127, CodeTable::X0208, 2);
    assert(etl1.wf() && etl2.wf() && etl3.wf() && etl8b.wf() && etl8g.wf() && etl9b.wf()
        && etl9g.wf());
    let mut r: Vec<Dataset> = Vec::new();
    r.push(Dataset { name: "ETL1", parser: etl1 });
    r.push(Dataset { name: "ETL6", parser: etl1 });
    r.push(Dataset { name: "ETL7", parser: etl1 });
    r.push(Dataset { name: "ETL2", parser: etl2 });
    r.push(Dataset { name: "ETL3", parser: etl3 });
    r.push(Dataset { name: "ETL4", parser: etl3 });
    r.push(Dataset { name: "ETL5", parser: etl3 });
    r.push(Dataset { name: "ETL8B", parser: etl8b });
    r.push(Dataset { name: "ETL8G", parser: etl8g });
    r.push(Dataset { name: "ETL9B", parser: etl9b });
    r.push(Dataset { name: "ETL9G", parser: etl9g });
    r
}

} // verus!
