use vstd::prelude::*;
use vstd::bytes::{spec_u16_to_le_bytes, u16_to_le_bytes};
use crate::grid::{flat_index, Grid};
use crate::vector::Vector;

verus! {

/// The decimal digit `d`, for `0 <= d < 10`.
pub open spec fn digit_char(d: int) -> char {
    if d == 0 {
        '0'
    } else if d == 1 {
        '1'
    } else if d == 2 {
        '2'
    } else if d == 3 {
        '3'
    } else if d == 4 {
        '4'
    } else if d == 5 {
        '5'
    } else if d == 6 {
        '6'
    } else if d == 7 {
        '7'
    } else if d == 8 {
        '8'
    } else {
        '9'
    }
}

/// `n` written in decimal without leading zeros, as `format!("{}", n)` writes it.
pub open spec fn decimal(n: nat) -> Seq<char>
    decreases n,
{
    if n < 10 {
        seq![digit_char(n as int)]
    } else {
        decimal(n / 10).push(digit_char((n % 10) as int))
    }
}

fn digit(d: u32) -> (c: char)
    requires
        d < 10,
    ensures
        c == digit_char(d as int),
{
    if d == 0 {
        '0'
    } else if d == 1 {
        '1'
    } else if d == 2 {
        '2'
    } else if d == 3 {
        '3'
    } else if d == 4 {
        '4'
    } else if d == 5 {
        '5'
    } else if d == 6 {
        '6'
    } else if d == 7 {
        '7'
    } else if d == 8 {
        '8'
    } else {
        '9'
    }
}

/// Appends `n` in decimal.
pub fn push_decimal(out: &mut Vec<char>, n: u32)
    ensures
        final(out)@ == old(out)@ + decimal(n as nat),
    decreases n,
{
    if n >= 10 {
        push_decimal(out, n / 10);
    }
    out.push(digit(n % 10));
    proof {
        if n >= 10 {
            assert(old(out)@ + decimal(n as nat) == old(out)@ + decimal((n / 10) as nat) + seq![
                digit_char((n % 10) as int),
            ]);
        } else {
            assert(old(out)@ + decimal(n as nat) == old(out)@.push(digit_char((n % 10) as int)));
        }
    }
}

/// The entries of a shape, separated by `", "`.
pub open spec fn shape_text(shape: Seq<u32>) -> Seq<char>
    decreases shape.len(),
{
    if shape.len() <= 1 {
        if shape.len() == 1 {
            decimal(shape[0] as nat)
        } else {
            seq![]
        }
    } else {
        shape_text(shape.drop_last()) + seq![',', ' '] + decimal(shape.last() as nat)
    }
}

/// The dictionary text before the shape entries.
pub open spec fn header_open() -> Seq<char> {
    seq![
        '{', '\'', 'd', 'e', 's', 'c', 'r', '\'', ':', ' ', '\'', '<', 'f', '4', '\'', ',', ' ',
        '\'', 'f', 'o', 'r', 't', 'r', 'a', 'n', '_', 'o', 'r', 'd', 'e', 'r', '\'', ':', ' ',
        'F', 'a', 'l', 's', 'e', ',', ' ', '\'', 's', 'h', 'a', 'p', 'e', '\'', ':', ' ', '(',
    ]
}

/// The dictionary text after the shape entries.
pub open spec fn header_close() -> Seq<char> {
    seq![')', ',', ' ', '}']
}

/// The header dictionary that describes little endian `f32` data of the
/// given shape in C order.
pub open spec fn header_text(shape: Seq<u32>) -> Seq<char> {
    header_open() + shape_text(shape) + header_close()
}

/// The bytes of an ASCII text.
pub open spec fn ascii_bytes(text: Seq<char>) -> Seq<u8> {
    Seq::new(text.len(), |i: int| text[i] as u8)
}

/// The eight leading bytes of an `.npy` file: the magic string and
/// format version 1.0.
pub open spec fn npy_magic() -> Seq<u8> {
    seq![0x93u8, 78u8, 85u8, 77u8, 80u8, 89u8, 1u8, 0u8]
}

/// The `.npy` preamble for the given shape: magic, version, the header's
/// length as a little endian `u16` (taken modulo 2^16) and the header.
pub open spec fn npy_header(shape: Seq<u32>) -> Seq<u8> {
    let text = header_text(shape);
    npy_magic() + spec_u16_to_le_bytes(#[verifier::truncate] (text.len() as u16)) + ascii_bytes(text)
}

/// Bytes of the values of `cells`, one after the other.
pub open spec fn cells_bytes<T: Vector>(cells: Seq<T>) -> Seq<u8>
    decreases cells.len(),
{
    if cells.len() == 0 {
        seq![]
    } else {
        cells_bytes(cells.drop_last()) + cells.last().spec_to_le_bytes()
    }
}

/// Shape text is made of digits, commas and spaces.
pub proof fn lemma_shape_text_chars(shape: Seq<u32>)
    ensures
        forall|i: int| 0 <= i < shape_text(shape).len() ==> shape_char(#[trigger] shape_text(shape)[i]),
    decreases shape.len(),
{
    if shape.len() > 1 {
        lemma_shape_text_chars(shape.drop_last());
        lemma_decimal_digits(shape.last() as nat);
        let a = shape_text(shape.drop_last());
        let b = seq![',', ' '];
        let c = decimal(shape.last() as nat);
        assert forall|i: int| 0 <= i < shape_text(shape).len() implies shape_char(
            #[trigger] shape_text(shape)[i],
        ) by {
            if i < a.len() {
                assert(shape_text(shape)[i] == a[i]);
            } else if i < a.len() + 2 {
                assert(shape_text(shape)[i] == b[i - a.len()]);
            } else {
                assert(shape_text(shape)[i] == c[i - a.len() - 2]);
            }
        }
    } else if shape.len() == 1 {
        lemma_decimal_digits(shape[0] as nat);
    }
}

/// A character of shape text.
pub open spec fn shape_char(c: char) -> bool {
    ('0' <= c && c <= '9') || c == ',' || c == ' '
}

/// Decimal text is made of digits.
pub proof fn lemma_decimal_digits(n: nat)
    ensures
        decimal(n).len() >= 1,
        forall|i: int| 0 <= i < decimal(n).len() ==> '0' <= #[trigger] decimal(n)[i] <= '9',
    decreases n,
{
    if n >= 10 {
        lemma_decimal_digits(n / 10);
    }
}

/// The number a run of decimal digits stands for, most significant first.
pub open spec fn digits_value(d: Seq<char>) -> int
    decreases d.len(),
{
    if d.len() == 0 {
        0
    } else {
        digits_value(d.drop_last()) * 10 + (d.last() as int - '0' as int)
    }
}

/// A digit character stands for its digit.
proof fn lemma_digit_char_value(d: int)
    requires
        0 <= d < 10,
    ensures
        digit_char(d) as int - '0' as int == d,
{
}

/// Decimal text reads back as its number and has no leading zero.
pub proof fn lemma_decimal_value(n: nat)
    ensures
        digits_value(decimal(n)) == n,
        n > 0 ==> decimal(n)[0] != '0',
    decreases n,
{
    lemma_digit_char_value((n % 10) as int);
    if n < 10 {
        assert(decimal(n).drop_last() =~= Seq::<char>::empty());
        assert(digits_value(decimal(n)) == digits_value(decimal(n).drop_last()) * 10 + (
        decimal(n).last() as int - '0' as int));
    } else {
        lemma_decimal_value(n / 10);
        assert(decimal(n).drop_last() =~= decimal(n / 10));
        assert(decimal(n).last() == digit_char((n % 10) as int));
        assert(digits_value(decimal(n)) == digits_value(decimal(n / 10)) * 10 + (n % 10));
        assert((n / 10) * 10 + n % 10 == n);
        lemma_decimal_digits(n / 10);
        assert(decimal(n)[0] == decimal(n / 10)[0]);
    }
}

/// Builds the `.npy` header for a shape of `SIZE` entries.
fn make_header<const SIZE: usize>(shape: [u32; SIZE]) -> (r: Vec<u8>)
    requires
        SIZE >= 1,
    ensures
        r@ == npy_header(shape@),
{
    let mut text: Vec<char> = vec![
        '{', '\'', 'd', 'e', 's', 'c', 'r', '\'', ':', ' ', '\'', '<', 'f', '4', '\'', ',', ' ',
        '\'', 'f', 'o', 'r', 't', 'r', 'a', 'n', '_', 'o', 'r', 'd', 'e', 'r', '\'', ':', ' ',
        'F', 'a', 'l', 's', 'e', ',', ' ', '\'', 's', 'h', 'a', 'p', 'e', '\'', ':', ' ', '(',
    ];
    let ghost shape_seq = shape@;
    assert(text@ == header_open());
    let mut i: usize = 0;
    while i + 1 < SIZE
        invariant
            SIZE >= 1,
            shape@ == shape_seq,
            shape_seq.len() == SIZE,
            i + 1 <= SIZE,
            text@ == header_open() + shape_text(shape_seq.take(i as int)) + (if i > 0 {
                seq![',', ' ']
            } else {
                seq![]
            }),
        decreases SIZE - i,
    {
        let ghost before = text@;
        push_decimal(&mut text, shape[i]);
        text.push(',');
        text.push(' ');
        proof {
            let t = shape_seq.take(i + 1);
            assert(t.drop_last() == shape_seq.take(i as int));
            if i == 0 {
                assert(t.len() == 1);
            }
        }
        i = i + 1;
    }
    push_decimal(&mut text, shape[SIZE - 1]);
    text.push(')');
    text.push(',');
    text.push(' ');
    text.push('}');
    proof {
        assert(shape_seq.take(SIZE as int) == shape_seq);
        let t = shape_seq.take(SIZE as int);
        if SIZE > 1 {
            assert(t.drop_last() == shape_seq.take(SIZE - 1));
        }
        assert(text@ == header_text(shape_seq));
    }
    let mut out: Vec<u8> = vec![0x93u8, 78u8, 85u8, 77u8, 80u8, 89u8, 1u8, 0u8];
    let header_len = #[verifier::truncate] (text.len() as u16);
    let mut len_bytes = u16_to_le_bytes(header_len);
    out.append(&mut len_bytes);
    let ghost prefix = out@;
    let mut j: usize = 0;
    while j < text.len()
        invariant
            j <= text@.len(),
            text@ == header_text(shape_seq),
            out@ == prefix + ascii_bytes(text@.take(j as int)),
        decreases text@.len() - j,
    {
        out.push(text[j] as u8);
        proof {
            assert(ascii_bytes(text@.take(j + 1)) == ascii_bytes(text@.take(j as int)).push(
                text@[j as int] as u8,
            ));
        }
        j = j + 1;
    }
    proof {
        assert(text@.take(text@.len() as int) == text@);
    }
    out
}

/// Bytes of the values of every layer, layer after layer.
pub open spec fn layers_bytes<T: Vector>(layers: Seq<Grid<T>>) -> Seq<u8>
    decreases layers.len(),
{
    if layers.len() == 0 {
        seq![]
    } else {
        layers_bytes(layers.drop_last()) + cells_bytes(layers.last().cells())
    }
}

/// The shape written for a stack of layers: `(layers, x, y, channels)` with
/// the extents of the first layer (`0` each for an empty stack), each
/// converted to `u32` as Rust's `as` does.
pub open spec fn layers_shape<T: Vector>(layers: Seq<Grid<T>>) -> Seq<u32> {
    let (sx, sy) = if layers.len() == 0 {
        (0u32, 0u32)
    } else {
        ((layers[0].width() as usize) as u32, (layers[0].height() as usize) as u32)
    };
    seq![(layers.len() as usize) as u32, sx, sy, T::spec_dim() as u32]
}

/// The `.npy` image of a stack of layers: its shape, then every layer's
/// values.
pub open spec fn layers_npy<T: Vector>(layers: Seq<Grid<T>>) -> Seq<u8> {
    npy_header(layers_shape(layers)) + layers_bytes(layers)
}

proof fn lemma_cells_bytes_take<T: Vector>(cells: Seq<T>, k: int)
    requires
        0 <= k < cells.len(),
    ensures
        cells_bytes(cells.take(k + 1)) == cells_bytes(cells.take(k)) + cells[k].spec_to_le_bytes(),
{
    assert(cells.take(k + 1).drop_last() == cells.take(k));
}

/// Appends the bytes of the values of `g`, in storage order.
fn append_cells<T: Vector>(out: &mut Vec<u8>, g: &Grid<T>)
    requires
        g.wf(),
    ensures
        final(out)@ == old(out)@ + cells_bytes(g.cells()),
{
    let dim_x = g.x();
    let dim_y = g.y();
    let ghost start = out@;
    let ghost cells = g.cells();
    let mut x: usize = 0;
    while x < dim_x
        invariant
            dim_x == g.width(),
            dim_y == g.height(),
            cells == g.cells(),
            cells.len() == dim_x * dim_y,
            x <= dim_x,
            out@ == start + cells_bytes(cells.take(dim_y * x)),
        decreases dim_x - x,
    {
        let mut y: usize = 0;
        while y < dim_y
            invariant
                dim_x == g.width(),
                dim_y == g.height(),
                cells == g.cells(),
                cells.len() == dim_x * dim_y,
                x < dim_x,
                y <= dim_y,
                out@ == start + cells_bytes(cells.take(dim_y * x + y)),
            decreases dim_y - y,
        {
            proof {
                assert(dim_y * x + y < dim_x * dim_y) by (nonlinear_arith)
                    requires x < dim_x, y < dim_y;
                lemma_cells_bytes_take(cells, dim_y * x + y);
            }
            let v = g.get(x, y);
            let mut bytes = v.to_le_bytes();
            out.append(&mut bytes);
            proof {
                assert(out@ == start + cells_bytes(cells.take(dim_y * x + y + 1)));
            }
            y = y + 1;
        }
        proof {
            assert(dim_y * x + dim_y == dim_y * (x + 1)) by (nonlinear_arith);
        }
        x = x + 1;
    }
    proof {
        assert(dim_y * dim_x == dim_x * dim_y) by (nonlinear_arith);
        assert(cells.take(dim_y * dim_x) == cells);
    }
}

impl<T: Vector> Grid<T> {
    /// The grid as an `.npy` image: shape `(x, y, channels)`, then every
    /// value in storage order.
    pub fn numpy_data(&self) -> (r: Vec<u8>)
        requires
            self.wf(),
        ensures
            r@ == npy_header(
                seq![
                    (self.width() as usize) as u32,
                    (self.height() as usize) as u32,
                    T::spec_dim() as u32,
                ],
            ) + cells_bytes(self.cells()),
    {
        let shape: [u32; 3] = [
            #[verifier::truncate] (self.x() as u32),
            #[verifier::truncate] (self.y() as u32),
            T::dim() as u32,
        ];
        let mut out = make_header(shape);
        append_cells(&mut out, self);
        out
    }

    /// The `.npy` image of a stack of layers, as written into the archive
    /// that saving produces.
    pub fn several_layers_npy(grid_layers: &[&Grid<T>]) -> (r: Vec<u8>)
        requires
            forall|i: int| 0 <= i < grid_layers@.len() ==> (#[trigger] grid_layers@[i]).wf(),
        ensures
            r@ == layers_npy(grid_layers@.map_values(|g: &Grid<T>| *g)),
    {
        let ghost layers = grid_layers@.map_values(|g: &Grid<T>| *g);
        let (shape_x, shape_y) = if grid_layers.len() == 0 {
            (0u32, 0u32)
        } else {
            (
                #[verifier::truncate] (grid_layers[0].x() as u32),
                #[verifier::truncate] (grid_layers[0].y() as u32),
            )
        };
        let shape: [u32; 4] = [
            #[verifier::truncate] (grid_layers.len() as u32),
            shape_x,
            shape_y,
            T::dim() as u32,
        ];
        let mut out = make_header(shape);
        let ghost start = out@;
        let mut i: usize = 0;
        while i < grid_layers.len()
            invariant
                layers == grid_layers@.map_values(|g: &Grid<T>| *g),
                forall|k: int| 0 <= k < grid_layers@.len() ==> (#[trigger] grid_layers@[k]).wf(),
                i <= grid_layers@.len(),
                out@ == start + layers_bytes(layers.take(i as int)),
            decreases grid_layers@.len() - i,
        {
            append_cells(&mut out, grid_layers[i]);
            proof {
                assert(layers.take(i + 1).drop_last() == layers.take(i as int));
            }
            i = i + 1;
        }
        proof {
            assert(layers.take(grid_layers@.len() as int) == layers);
        }
        out
    }
}

} // verus!
