//! Turning a decoded image into an image file: the padding that a decoder
//! may leave at the end of every row is taken out, and the rows are handed
//! to the encoder.

use crate::codec::{encode_rgb8, png_rgb8};
use vstd::prelude::*;
use vstd::string::StringExecFns;

verus! {

/// A decoded image: interleaved red, green and blue samples, row after row.
/// A row may be longer than its pixels need; the rest of it is padding.
pub struct DecodedImage {
    pub width: u32,
    pub height: u32,
    pub data: Vec<u8>,
}

/// The bytes that the pixels of one row take.
pub open spec fn row_len(width: u32) -> nat {
    width as nat * 3
}

/// The bytes from the start of one row to the start of the next: the data
/// divided evenly among the rows.
pub open spec fn stride_of(height: u32, data: Seq<u8>) -> nat {
    data.len() / height as nat
}

/// Every row is long enough for its pixels. An image without pixels has no
/// row that could be short.
pub open spec fn rows_fit(width: u32, height: u32, data: Seq<u8>) -> bool {
    width == 0 || height == 0 || row_len(width) <= stride_of(height, data)
}

/// The first `row` bytes of each of the first `rows` rows, one row after the
/// other.
pub open spec fn packed_rows(data: Seq<u8>, row: nat, stride: nat, rows: nat) -> Seq<u8>
    decreases rows,
{
    if rows == 0 {
        Seq::empty()
    } else {
        packed_rows(data, row, stride, (rows - 1) as nat) + data.subrange(
            (rows - 1) * stride,
            (rows - 1) * stride + row,
        )
    }
}

/// The samples of an image without the padding of its rows.
pub open spec fn pixels_of(width: u32, height: u32, data: Seq<u8>) -> Seq<u8> {
    if width == 0 || height == 0 {
        Seq::empty()
    } else {
        packed_rows(data, row_len(width), stride_of(height, data), height as nat)
    }
}

/// Packed rows are as long as their number and length say.
pub proof fn lemma_packed_len(data: Seq<u8>, row: nat, stride: nat, rows: nat)
    requires
        row <= stride,
        rows * stride <= data.len(),
    ensures
        packed_rows(data, row, stride, rows).len() == rows * row,
    decreases rows,
{
    if rows > 0 {
        let above = (rows - 1) as nat;
        assert(above * stride + stride == rows * stride) by (nonlinear_arith)
            requires
                above + 1 == rows,
        ;
        assert(above * row + row == rows * row) by (nonlinear_arith)
            requires
                above + 1 == rows,
        ;
        lemma_packed_len(data, row, stride, above);
        assert(data.subrange((rows - 1) * stride, (rows - 1) * stride + row).len() == row);
    } else {
        assert(rows * row == 0) by (nonlinear_arith)
            requires
                rows == 0,
        ;
    }
}

/// Rows without padding are packed as they are.
pub proof fn lemma_packed_without_padding(data: Seq<u8>, row: nat, rows: nat)
    requires
        rows * row <= data.len(),
    ensures
        packed_rows(data, row, row, rows) == data.subrange(0, (rows * row) as int),
    decreases rows,
{
    if rows > 0 {
        let above = (rows - 1) as nat;
        assert(above * row + row == rows * row) by (nonlinear_arith)
            requires
                above + 1 == rows,
        ;
        lemma_packed_without_padding(data, row, above);
        assert(packed_rows(data, row, row, rows) =~= data.subrange(0, (rows * row) as int));
    } else {
        assert(rows * row == 0) by (nonlinear_arith)
            requires
                rows == 0,
        ;
        assert(data.subrange(0, 0) =~= Seq::<u8>::empty());
    }
}

/// The sample at a place in the picture is the sample at that place in the
/// data: packing moves no sample within its row or between rows.
pub proof fn lemma_packed_sample(
    data: Seq<u8>,
    row: nat,
    stride: nat,
    rows: nat,
    r: nat,
    c: nat,
)
    requires
        row <= stride,
        rows * stride <= data.len(),
        r < rows,
        c < row,
    ensures
        r * row + c < packed_rows(data, row, stride, rows).len(),
        packed_rows(data, row, stride, rows)[(r * row + c) as int] == data[(r * stride + c) as int],
    decreases rows,
{
    let above = (rows - 1) as nat;
    assert(above * stride + stride == rows * stride) by (nonlinear_arith)
        requires
            above + 1 == rows,
    ;
    assert(above * row + row == rows * row) by (nonlinear_arith)
        requires
            above + 1 == rows,
    ;
    lemma_packed_len(data, row, stride, above);
    lemma_packed_len(data, row, stride, rows);
    if r == above {
    } else {
        assert(r * row + row <= above * row) by (nonlinear_arith)
            requires
                r + 1 <= above,
        ;
        lemma_packed_sample(data, row, stride, above, r, c);
    }
}

/// Why an image could not be transcoded.
pub enum TranscodeError {
    /// The data holds less for every row than the width asks for.
    ShortRows,
    /// The encoder reported an error; `message` is what it said.
    Encoder { message: String },
}

impl TranscodeError {
    /// What the error says in words: for short rows a fixed sentence, for
    /// the encoder its own message.
    pub open spec fn text(self) -> Seq<char> {
        match self {
            TranscodeError::ShortRows => "decoded rows are shorter than the image is wide"@,
            TranscodeError::Encoder { message } => message@,
        }
    }

    /// The error in words.
    pub fn message(&self) -> (text: String)
        ensures
            text@ == self.text(),
    {
        match self {
            TranscodeError::ShortRows => String::from_str(
                "decoded rows are shorter than the image is wide",
            ),
            TranscodeError::Encoder { message } => message.clone(),
        }
    }
}

/// The samples of the image without the padding of its rows, or nothing
/// where the rows are too short for the width.
pub fn pack_rows(image: &DecodedImage) -> (packed: Option<Vec<u8>>)
    ensures
        packed is Some <==> rows_fit(image.width, image.height, image.data@),
        packed is Some ==> packed->0@ == pixels_of(image.width, image.height, image.data@),
        packed is Some ==> packed->0@.len() == image.width as nat * image.height as nat * 3,
{
    if image.width == 0 || image.height == 0 {
        proof {
            assert(image.width as nat * image.height as nat * 3 == 0) by (nonlinear_arith)
                requires
                    image.width == 0 || image.height == 0,
            ;
        }
        return Some(Vec::new());
    }
    let rows = image.height as usize;
    let stride = image.data.len() / rows;
    let needed = image.width as u64 * 3;
    if (stride as u64) < needed {
        return None;
    }
    let row = needed as usize;
    let ghost data = image.data@;
    proof {
        assert(rows * stride <= data.len()) by (nonlinear_arith)
            requires
                stride == data.len() / rows as nat,
                rows > 0,
        ;
    }
    let mut out: Vec<u8> = Vec::new();
    let mut r: usize = 0;
    while r < rows
        invariant
            data == image.data@,
            data.len() <= usize::MAX,
            row <= stride,
            rows * stride <= data.len(),
            r <= rows,
            out@ == packed_rows(data, row as nat, stride as nat, r as nat),
        decreases rows - r,
    {
        proof {
            assert(0 <= r * stride && r * stride + stride <= rows * stride) by (nonlinear_arith)
                requires
                    0 <= r,
                    0 <= stride,
                    r + 1 <= rows,
            ;
        }
        let start = r * stride;
        let ghost done = out@;
        let mut c: usize = 0;
        while c < row
            invariant
                data == image.data@,
                data.len() <= usize::MAX,
                row <= stride,
                start + stride <= data.len(),
                c <= row,
                out@ == done + data.subrange(start as int, start + c),
            decreases row - c,
        {
            out.push(image.data[start + c]);
            proof {
                assert(out@ =~= done + data.subrange(start as int, start + c + 1));
            }
            c = c + 1;
        }
        r = r + 1;
    }
    proof {
        lemma_packed_len(data, row as nat, stride as nat, rows as nat);
        assert(rows as nat * row as nat == image.width as nat * image.height as nat * 3)
            by (nonlinear_arith)
            requires
                row == image.width * 3,
                rows == image.height,
        ;
    }
    Some(out)
}

/// What the encoder's outcome means for the file: its bytes, or its error in
/// words.
pub fn encoded(outcome: Result<Vec<u8>, png::EncodingError>) -> (r: Result<Vec<u8>, TranscodeError>)
    ensures
        match outcome {
            Ok(bytes) => r == Ok::<Vec<u8>, TranscodeError>(bytes),
            Err(_) => r is Err && r->Err_0 is Encoder,
        },
{
    match outcome {
        Ok(bytes) => Ok(bytes),
        Err(e) => Err(TranscodeError::Encoder { message: e.to_string() }),
    }
}

/// The image as a lossless RGB image file. Rows that are too short for the
/// width are an error, and so is whatever the encoder reports.
pub fn transcode(image: &DecodedImage) -> (r: Result<Vec<u8>, TranscodeError>)
    ensures
        match r {
            Ok(bytes) => rows_fit(image.width, image.height, image.data@) && png_rgb8(
                image.width,
                image.height,
                pixels_of(image.width, image.height, image.data@),
            ) == Some(bytes@),
            Err(TranscodeError::ShortRows) => !rows_fit(image.width, image.height, image.data@),
            Err(TranscodeError::Encoder { .. }) => rows_fit(
                image.width,
                image.height,
                image.data@,
            ) && png_rgb8(
                image.width,
                image.height,
                pixels_of(image.width, image.height, image.data@),
            ) is None,
        },
{
    if is_packed(image) {
        encoded(encode_rgb8(image.width, image.height, image.data.as_slice()))
    } else {
        match pack_rows(image) {
            None => Err(TranscodeError::ShortRows),
            Some(pixels) => encoded(encode_rgb8(image.width, image.height, pixels.as_slice())),
        }
    }
}

/// Whether the data is the pixels and nothing else, so that it can go to the
/// encoder as it is.
pub fn is_packed(image: &DecodedImage) -> (b: bool)
    ensures
        b == (image.data@.len() == image.width as nat * image.height as nat * 3),
        b ==> rows_fit(image.width, image.height, image.data@) && image.data@ == pixels_of(
            image.width,
            image.height,
            image.data@,
        ),
{
    let ghost data = image.data@;
    if image.width == 0 || image.height == 0 {
        proof {
            assert(image.width as nat * image.height as nat * 3 == 0) by (nonlinear_arith)
                requires
                    image.width == 0 || image.height == 0,
            ;
            if data.len() == 0 {
                assert(data =~= Seq::<u8>::empty());
            }
        }
        return image.data.len() == 0;
    }
    let rows = image.height as usize;
    let stride = image.data.len() / rows;
    let even = image.data.len() % rows == 0;
    let needed = image.width as u64 * 3;
    let ghost row = row_len(image.width);
    proof {
        assert(data.len() == rows * stride + data.len() % (rows as nat)) by (nonlinear_arith)
            requires
                stride == data.len() / rows as nat,
                rows > 0,
        ;
        assert(image.width as nat * image.height as nat * 3 == rows * row) by (nonlinear_arith)
            requires
                row == image.width * 3,
                rows == image.height,
        ;
        if stride == row && even {
            lemma_packed_without_padding(data, row, rows as nat);
            assert(data.subrange(0, data.len() as int) =~= data);
        }
        if data.len() == rows * row {
            assert(stride == row && even) by (nonlinear_arith)
                requires
                    data.len() == rows * row,
                    stride == data.len() / rows as nat,
                    even == (data.len() % rows as nat == 0),
                    rows > 0,
            ;
        }
    }
    even && stride as u64 == needed
}

} // verus!
