use vstd::prelude::*;
use vstd::slice::slice_subrange;
use vstd::utf8::{decode_utf8, valid_utf8};
use crate::error::FileError;
use crate::grid::Grid;
use crate::header::{
    de_quote, de_quote_spec, dict_scan, dict_start, lookup, run_tuple, scan_dict, tuple_outcome,
    DictScan, TupleRun, TupleScan,
};
use crate::text::{chars_of, str_from_utf8, string_from_chars};
use crate::vector::Vector;
use crate::vector2::Vector2;

verus! {

/// Why reading an `.npy` image is refused.
pub enum LoadFailure {
    Utf8,
    InvalidHeader,
    InvalidHeaderJson,
    UnsupportedDatatype(Seq<char>),
}

/// What reading an `.npy` image gives.
pub enum NpyLoad {
    /// The input on which reading panics (too short, a malformed number
    /// in the shape, a shape whose size overflows `u32`, or data shorter
    /// than the shape asks for).
    Panics,
    Fails(LoadFailure),
    /// `count` layers of `size_x` by `size_y` values of `channels` channels,
    /// read one after the other from `data`.
    Layers { count: nat, size_x: nat, size_y: nat, channels: nat, data: Seq<u8> },
}

pub open spec fn numpy_word() -> Seq<char> {
    seq!['N', 'U', 'M', 'P', 'Y']
}

pub open spec fn shape_key() -> Seq<char> {
    seq!['s', 'h', 'a', 'p', 'e']
}

pub open spec fn descr_key() -> Seq<char> {
    seq!['d', 'e', 's', 'c', 'r']
}

pub open spec fn f4_code() -> Seq<char> {
    seq!['<', 'f', '4']
}

/// Index of the first `}` in `buf` at or after `from`.
pub open spec fn find_close_brace(buf: Seq<u8>, from: int) -> Option<int>
    decreases buf.len() - from,
{
    if from < 0 || from >= buf.len() {
        None
    } else if buf[from] == 125 {
        Some(from)
    } else {
        find_close_brace(buf, from + 1)
    }
}

/// The product of the entries, or `None` where a partial product exceeds `u32::MAX`.
pub open spec fn checked_product(s: Seq<u32>) -> Option<nat>
    decreases s.len(),
{
    if s.len() == 0 {
        Some(1)
    } else {
        match checked_product(s.drop_last()) {
            None => None,
            Some(p) => if p * s.last() > u32::MAX {
                None
            } else {
                Some(p * (s.last() as nat))
            },
        }
    }
}

/// Reading the layers once the header dictionary ends at `end`.
pub open spec fn npy_load_dict(buf: Seq<u8>, end: int, dim: nat) -> NpyLoad {
    let header = buf.subrange(10, end + 1);
    if !valid_utf8(header) {
        NpyLoad::Fails(LoadFailure::Utf8)
    } else {
        match dict_scan(dict_start(), decode_utf8(header).skip(1)) {
            None => NpyLoad::Fails(LoadFailure::InvalidHeaderJson),
            Some(st) => match lookup(st.items, shape_key()) {
                None => NpyLoad::Fails(LoadFailure::InvalidHeaderJson),
                Some(shape_text) => match tuple_outcome(shape_text) {
                    TupleScan::Done(shape) => if shape.len() != 3 && shape.len() != 4 {
                        NpyLoad::Fails(LoadFailure::InvalidHeaderJson)
                    } else {
                        match lookup(st.items, descr_key()) {
                            None => NpyLoad::Fails(LoadFailure::InvalidHeaderJson),
                            Some(format) => match de_quote_spec(format) {
                                None => NpyLoad::Fails(LoadFailure::InvalidHeaderJson),
                                Some(code) => if code != f4_code() {
                                    NpyLoad::Fails(LoadFailure::UnsupportedDatatype(format))
                                } else {
                                    npy_load_data(buf.skip(end + 1), shape, dim)
                                },
                            },
                        }
                    },
                    TupleScan::Panics => NpyLoad::Panics,
                    _ => NpyLoad::Fails(LoadFailure::InvalidHeaderJson),
                },
            },
        }
    }
}

/// Reading the layers once the shape and the data type are accepted.
pub open spec fn npy_load_data(data: Seq<u8>, shape: Seq<u32>, dim: nat) -> NpyLoad {
    match checked_product(shape) {
        None => NpyLoad::Panics,
        Some(p) => if 4 * p > u32::MAX {
            NpyLoad::Panics
        } else {
            let count: nat = if shape.len() == 4 {
                shape[0] as nat
            } else {
                1
            };
            let size_x: nat = if shape.len() == 4 {
                shape[1] as nat
            } else {
                shape[0] as nat
            };
            let size_y: nat = if shape.len() == 4 {
                shape[2] as nat
            } else {
                shape[1] as nat
            };
            let channels: nat = if shape.len() == 4 {
                shape[3] as nat
            } else {
                shape[2] as nat
            };
            if channels != dim {
                NpyLoad::Fails(LoadFailure::InvalidHeaderJson)
            } else if count * size_x * size_y > 0 && channels * 4 * (count * size_x * size_y)
                > data.len() {
                NpyLoad::Panics
            } else {
                NpyLoad::Layers { count, size_x, size_y, channels, data }
            }
        },
    }
}

/// What reading the `.npy` image `buf` gives, for values of `dim` channels.
pub open spec fn npy_load(buf: Seq<u8>, dim: nat) -> NpyLoad {
    if buf.len() < 6 {
        NpyLoad::Panics
    } else if !valid_utf8(buf.subrange(1, 6)) {
        NpyLoad::Fails(LoadFailure::Utf8)
    } else if decode_utf8(buf.subrange(1, 6)) != numpy_word() {
        NpyLoad::Fails(LoadFailure::InvalidHeader)
    } else if buf.len() < 11 {
        NpyLoad::Panics
    } else if buf[10] != 123 {
        NpyLoad::Fails(LoadFailure::InvalidHeader)
    } else {
        match find_close_brace(buf, 11) {
            None => NpyLoad::Fails(LoadFailure::InvalidHeader),
            Some(end) => npy_load_dict(buf, end, dim),
        }
    }
}

/// The bytes of value `k` among values of `channels` channels.
pub open spec fn value_bytes(data: Seq<u8>, channels: nat, k: int) -> Seq<u8> {
    data.subrange(channels * 4 * k, channels * 4 * (k + 1))
}

/// `grids` are the `count` layers of `size_x` by `size_y` values read one
/// after the other from `data`, layer by layer and each in storage order.
pub open spec fn layers_read<T: Vector>(
    grids: Seq<Grid<T>>,
    count: nat,
    size_x: nat,
    size_y: nat,
    channels: nat,
    data: Seq<u8>,
) -> bool {
    &&& grids.len() == count
    &&& forall|l: int|
        0 <= l < count ==> {
            &&& (#[trigger] grids[l]).wf()
            &&& grids[l].width() == size_x
            &&& grids[l].height() == size_y
            &&& forall|i: int|
                0 <= i < size_x * size_y ==> #[trigger] grids[l].cells()[i]
                    == T::spec_from_le_bytes(
                    value_bytes(data, channels, l * (size_x * size_y) + i),
                )
        }
}

/// The error value that stands for a refusal.
pub open spec fn error_for(e: FileError, f: LoadFailure) -> bool {
    match f {
        LoadFailure::Utf8 => e is Utf8Error,
        LoadFailure::InvalidHeader => e is InvalidHeader,
        LoadFailure::InvalidHeaderJson => e is InvalidHeaderJson,
        LoadFailure::UnsupportedDatatype(s) => e matches FileError::UnsupportedDatatype(t)
            && t@ == s,
    }
}

/// Outcome of reading an `.npy` image, the panicking inputs told apart.
pub enum LoadRun<T: Copy> {
    Loaded(Vec<Grid<T>>),
    Failed(FileError),
    Panics,
}

/// `LoadRun` against `NpyLoad`.
pub open spec fn run_matches<T: Vector>(r: LoadRun<T>, l: NpyLoad) -> bool {
    match r {
        LoadRun::Panics => l is Panics,
        LoadRun::Failed(e) => l matches NpyLoad::Fails(f) && error_for(e, f),
        LoadRun::Loaded(g) => l matches NpyLoad::Layers { count, size_x, size_y, channels, data }
            && layers_read(g@, count, size_x, size_y, channels, data),
    }
}

fn chars_are(v: &Vec<char>, lit: Vec<char>) -> (r: bool)
    ensures
        r == (v@ == lit@),
{
    crate::header::chars_equal(v, &lit)
}

/// Reads the `.npy` image `buf` into layers of values of `T::dim()` channels.
pub fn load_outcome<T: Vector>(buf: &[u8]) -> (r: LoadRun<T>)
    ensures
        run_matches(r, npy_load(buf@, T::spec_dim())),
{
    if buf.len() < 6 {
        return LoadRun::Panics;
    }
    let magic = slice_subrange(buf, 1, 6);
    match str_from_utf8(magic) {
        Err(e) => {
            return LoadRun::Failed(FileError::Utf8Error(e));
        },
        Ok(s) => {
            let word = chars_of(s);
            if !chars_are(&word, vec!['N', 'U', 'M', 'P', 'Y']) {
                return LoadRun::Failed(FileError::InvalidHeader);
            }
        },
    }
    if buf.len() < 11 {
        return LoadRun::Panics;
    }
    if buf[10] != 123u8 {
        return LoadRun::Failed(FileError::InvalidHeader);
    }
    let mut end: usize = 11;
    while end < buf.len() && buf[end] != 125u8
        invariant
            11 <= end <= buf@.len(),
            find_close_brace(buf@, 11) == find_close_brace(buf@, end as int),
        decreases buf@.len() - end,
    {
        end = end + 1;
    }
    if end == buf.len() {
        return LoadRun::Failed(FileError::InvalidHeader);
    }
    assert(find_close_brace(buf@, 11) == Some(end as int));
    let header = slice_subrange(buf, 10, end + 1);
    let cs = match str_from_utf8(header) {
        Err(e) => {
            return LoadRun::Failed(FileError::Utf8Error(e));
        },
        Ok(s) => chars_of(s),
    };
    proof {
        let hb = buf@.subrange(10, end + 1);
        assert(hb.len() > 0);
        assert(decode_utf8(hb).len() > 0);
    }
    let scan = match scan_dict(&cs, 1) {
        None => {
            return LoadRun::Failed(FileError::InvalidHeaderJson);
        },
        Some(scan) => scan,
    };
    let shape_text = match scan.lookup(&vec!['s', 'h', 'a', 'p', 'e']) {
        None => {
            return LoadRun::Failed(FileError::InvalidHeaderJson);
        },
        Some(t) => t,
    };
    let shape = match run_tuple(&shape_text) {
        TupleRun::Panics => {
            return LoadRun::Panics;
        },
        TupleRun::Refused => {
            return LoadRun::Failed(FileError::InvalidHeaderJson);
        },
        TupleRun::Parsed(v) => v,
    };
    if !(shape.len() == 3 || shape.len() == 4) {
        return LoadRun::Failed(FileError::InvalidHeaderJson);
    }
    let format = match scan.lookup(&vec!['d', 'e', 's', 'c', 'r']) {
        None => {
            return LoadRun::Failed(FileError::InvalidHeaderJson);
        },
        Some(t) => t,
    };
    match de_quote(&format) {
        None => {
            return LoadRun::Failed(FileError::InvalidHeaderJson);
        },
        Some(code) => {
            if !chars_are(&code, vec!['<', 'f', '4']) {
                return LoadRun::Failed(FileError::UnsupportedDatatype(string_from_chars(&format)));
            }
        },
    }
    let data = slice_subrange(buf, end + 1, buf.len());
    assert(data@ == buf@.skip(end + 1));
    load_data(data, &shape)
}

/// Reads the layers once the shape and the data type are accepted.
fn load_data<T: Vector>(data: &[u8], shape: &Vec<u32>) -> (r: LoadRun<T>)
    requires
        shape@.len() == 3 || shape@.len() == 4,
    ensures
        run_matches(r, npy_load_data(data@, shape@, T::spec_dim())),
{
    let mut product: u32 = 1;
    let mut i: usize = 0;
    while i < shape.len()
        invariant
            i <= shape@.len(),
            checked_product(shape@.take(i as int)) == Some(product as nat),
        decreases shape@.len() - i,
    {
        proof {
            assert(shape@.take(i + 1).drop_last() == shape@.take(i as int));
            assert(shape@.take(i + 1).last() == shape@[i as int]);
        }
        match product.checked_mul(shape[i]) {
            None => {
                proof {
                    lemma_checked_product_prefix(shape@, i + 1);
                }
                return LoadRun::Panics;
            },
            Some(p) => {
                product = p;
            },
        }
        i = i + 1;
    }
    assert(shape@.take(shape@.len() as int) == shape@);
    if product > u32::MAX / 4 {
        return LoadRun::Panics;
    }
    let (count, size_x, size_y, channels) = if shape.len() == 4 {
        (shape[0], shape[1], shape[2], shape[3])
    } else {
        (1u32, shape[0], shape[1], shape[2])
    };
    let dim = T::dim();
    if channels as usize != dim {
        return LoadRun::Failed(FileError::InvalidHeaderJson);
    }
    proof {
        assert(size_x as u64 * size_y as u64 <= u64::MAX) by (nonlinear_arith)
            requires size_x <= u32::MAX, size_y <= u32::MAX;
    }
    let cells: u64 = size_x as u64 * size_y as u64;
    proof {
        assert(count as u128 * cells as u128 <= u128::MAX) by (nonlinear_arith)
            requires count <= u32::MAX, cells <= u64::MAX;
    }
    let all_cells: u128 = count as u128 * cells as u128;
    let value_len: usize = channels as usize * 4;
    proof {
        assert(all_cells == count * (size_x * size_y));
        assert(count * (size_x * size_y) == count * size_x * size_y) by (nonlinear_arith);
        assert(all_cells * value_len == channels * 4 * (count * size_x * size_y)) by (nonlinear_arith)
            requires all_cells == count * size_x * size_y, value_len == channels * 4;
    }
    let data_len = data.len();
    if all_cells > 0 {
        let needed = all_cells.checked_mul(value_len as u128);
        match needed {
            None => {
                return LoadRun::Panics;
            },
            Some(n) => {
                if n > data_len as u128 {
                    return LoadRun::Panics;
                }
            },
        }
    }
    let ghost total: nat = (count * size_x * size_y) as nat;
    proof {
        assert(all_cells == count * (size_x * size_y));
        assert(count * (size_x * size_y) == count * size_x * size_y) by (nonlinear_arith);
    }
    read_layers(data, count, size_x, size_y, channels as usize)
}

proof fn lemma_checked_product_prefix(s: Seq<u32>, k: int)
    requires
        0 <= k <= s.len(),
        checked_product(s.take(k)) is None,
    ensures
        checked_product(s) is None,
    decreases s.len() - k,
{
    if k < s.len() {
        assert(s.take(k + 1).drop_last() == s.take(k));
        lemma_checked_product_prefix(s, k + 1);
    } else {
        assert(s.take(k) == s);
    }
}

/// Reads `count` layers of `size_x` by `size_y` values from `data`.
fn read_layers<T: Vector>(
    data: &[u8],
    count: u32,
    size_x: u32,
    size_y: u32,
    channels: usize,
) -> (r: LoadRun<T>)
    requires
        channels == T::spec_dim(),
        1 <= channels,
        4 * channels <= u32::MAX,
        count * size_x * size_y > 0 ==> channels * 4 * (count * size_x * size_y) <= data@.len(),
    ensures
        r matches LoadRun::Loaded(g) && layers_read(
            g@,
            count as nat,
            size_x as nat,
            size_y as nat,
            channels as nat,
            data@,
        ),
{
    let value_len = channels * 4;
    let data_len = data.len();
    let ghost per_layer: nat = (size_x * size_y) as nat;
    let mut grids: Vec<Grid<T>> = Vec::new();
    let mut pos: usize = 0;
    let mut layer: u32 = 0;
    let ghost dv = data@;
    proof {
        assert(count * size_x * size_y == count * (size_x * size_y)) by (nonlinear_arith);
    }
    while layer < count
        invariant
            channels == T::spec_dim(),
            1 <= channels,
            value_len == channels * 4,
            dv == data@,
            data_len == data@.len(),
            per_layer == size_x * size_y,
            count * per_layer > 0 ==> channels * 4 * (count * per_layer) <= data@.len(),
            layer <= count,
            pos == value_len * (layer * per_layer),
            layers_read(grids@, layer as nat, size_x as nat, size_y as nat, channels as nat, dv),
        decreases count - layer,
    {
        let mut values: Vec<T> = Vec::new();
        let cells: usize = if per_layer_nonzero(size_x, size_y) {
            proof {
                lemma_layer_fits(channels as int, count as int, per_layer as int, layer as int, data@.len() as int);
            }
            size_x as usize * size_y as usize
        } else {
            0
        };
        let ghost base: int = layer * per_layer;
        let mut j: usize = 0;
        while j < cells
            invariant
                channels == T::spec_dim(),
                1 <= channels,
                value_len == channels * 4,
                cells == per_layer,
                data_len == data@.len(),
                per_layer == size_x * size_y,
                count * per_layer > 0 ==> channels * 4 * (count * per_layer) <= data@.len(),
                layer < count,
                base == layer * per_layer,
                j <= cells,
                pos == value_len * (base + j),
                values@.len() == j,
                forall|i: int|
                    0 <= i < j ==> #[trigger] values@[i] == T::spec_from_le_bytes(
                        value_bytes(data@, channels as nat, base + i),
                    ),
            decreases cells - j,
        {
            proof {
                lemma_value_fits(channels as int, count as int, per_layer as int, layer as int, j as int, data@.len() as int);
            }
            let bytes = slice_subrange(data, pos, pos + value_len);
            let v = T::from_le_bytes(bytes);
            proof {
                assert(bytes@.subrange(0, 4 * T::spec_dim() as int) == bytes@);
                assert(value_len * (base + j) + value_len == value_len * (base + j + 1)) by (nonlinear_arith);
            }
            values.push(v);
            pos = pos + value_len;
            j = j + 1;
        }
        proof {
            assert(values@.len() == size_x * size_y);
        }
        let grid = Grid::from_vec(Vector2::new(size_x as usize, size_y as usize), values);
        let ghost before = grids@;
        grids.push(grid);
        proof {
            assert(base + per_layer == (layer + 1) * per_layer) by (nonlinear_arith)
                requires base == layer * per_layer;
            assert forall|l: int| 0 <= l < layer + 1 implies {
                &&& (#[trigger] grids@[l]).wf()
                &&& grids@[l].width() == size_x
                &&& grids@[l].height() == size_y
                &&& forall|i: int|
                    0 <= i < size_x * size_y ==> #[trigger] grids@[l].cells()[i]
                        == T::spec_from_le_bytes(
                        value_bytes(dv, channels as nat, l * (size_x * size_y) + i),
                    )
            } by {
                if l < layer {
                    assert(grids@[l] == before[l]);
                }
            }
        }
        layer = layer + 1;
    }
    LoadRun::Loaded(grids)
}

fn per_layer_nonzero(size_x: u32, size_y: u32) -> (r: bool)
    ensures
        r == (size_x * size_y > 0),
{
    proof {
        assert((size_x * size_y > 0) == (size_x > 0 && size_y > 0)) by (nonlinear_arith);
    }
    size_x > 0 && size_y > 0
}

proof fn lemma_layer_fits(channels: int, count: int, per_layer: int, layer: int, len: int)
    by (nonlinear_arith)
    requires
        channels >= 1,
        0 <= layer < count,
        per_layer > 0,
        count * per_layer > 0 ==> channels * 4 * (count * per_layer) <= len,
    ensures
        per_layer <= len,
{
}

proof fn lemma_value_fits(channels: int, count: int, per_layer: int, layer: int, j: int, len: int)
    by (nonlinear_arith)
    requires
        channels >= 1,
        0 <= layer < count,
        0 <= j < per_layer,
        count * per_layer > 0 ==> channels * 4 * (count * per_layer) <= len,
    ensures
        channels * 4 * (layer * per_layer + j) + channels * 4 <= len,
        0 <= channels * 4 * (layer * per_layer + j),
{
}

} // verus!
