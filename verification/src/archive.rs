use vstd::prelude::*;
use crate::error::FileError;
use crate::grid::Grid;
use crate::load::{error_for, layers_read, load_outcome, npy_load, LoadRun, NpyLoad};
use crate::numpy::layers_npy;
use crate::vector::Vector;

verus! {

/// The zip archive, in the crate's default (no timestamp) settings, that
/// holds one stored entry named `0` with contents `data`.
pub uninterp spec fn stored_archive(data: Seq<u8>) -> Seq<u8>;

/// What reading the first entry of the zip archive `archive` gives (as an
/// unencrypted entry, or decrypted with the empty password), or `None` where
/// the archive or its first entry cannot be read.
pub uninterp spec fn first_entry(archive: Seq<u8>) -> Option<Seq<u8>>;

/// The four bytes every zip archive begins with.
pub open spec fn zip_signature() -> Seq<u8> {
    seq![0x50u8, 0x4bu8, 3u8, 4u8]
}

/// Writes `data` as the stored entry `0` of a new zip archive with
/// `zip::ZipWriter` (`new`, `start_file` with `FileOptions::default()` and
/// stored compression, `write`, `finish`) over an in-memory cursor. Stated:
/// the archive is named `stored_archive(data)`, it begins with the local
/// file header signature, and reading its first entry gives `data` back.
/// `write` refuses more than `u32::MAX` bytes without the large file
/// option, hence the bound.
#[verifier::external_body]
fn write_stored_archive(data: &[u8]) -> (r: Vec<u8>)
    requires
        data@.len() <= u32::MAX,
    ensures
        r@ == stored_archive(data@),
        r@.len() >= 4,
        r@.take(4) == zip_signature(),
        first_entry(r@) == Some(data@),
{
    let mut w = zip::ZipWriter::new(std::io::Cursor::new(Vec::new()));
    let options = zip::write::FileOptions::default().compression_method(
        zip::CompressionMethod::Stored,
    );
    w.start_file("0", options).unwrap();
    std::io::Write::write(&mut w, data).unwrap();
    w.finish().unwrap().into_inner()
}

/// Reads the first entry of a zip archive with `zip::ZipArchive` (`new`,
/// `by_index_decrypt(0, b"")`, `read_to_end`). Stated: the result is named
/// `first_entry(archive)`. Every failure the crate reports (an unreadable
/// archive, an entry it cannot decrypt or decompress, a bad checksum) gives
/// `None`; which malformed archives those are is left to the crate.
#[verifier::external_body]
fn read_first_entry(archive: &[u8]) -> (r: Option<Vec<u8>>)
    ensures
        r matches Some(v) ==> first_entry(archive@) == Some(v@),
        r is None ==> first_entry(archive@) is None,
{
    let mut a = zip::ZipArchive::new(std::io::Cursor::new(archive)).ok()?;
    let mut entry = a.by_index_decrypt(0, b"").ok()?.ok()?;
    let mut out = Vec::new();
    std::io::Read::read_to_end(&mut entry, &mut out).ok()?;
    Some(out)
}

/// The `.npy` image held by a saved file: the first entry of a zip archive
/// that can be read, else the bytes themselves.
pub open spec fn npy_image(buf: Seq<u8>) -> Seq<u8> {
    if buf.len() >= 4 && buf.take(4) == zip_signature() {
        match first_entry(buf) {
            Some(d) => d,
            None => buf,
        }
    } else {
        buf
    }
}

/// What loading the saved bytes `buf` gives, for values of `dim` channels.
pub open spec fn layers_load(buf: Seq<u8>, dim: nat) -> NpyLoad {
    npy_load(npy_image(buf), dim)
}

/// `r` is what `l` says loading gives.
pub open spec fn result_matches<T: Vector>(r: Result<Vec<Grid<T>>, FileError>, l: NpyLoad) -> bool {
    match r {
        Ok(g) => l matches NpyLoad::Layers { count, size_x, size_y, channels, data }
            && layers_read(g@, count, size_x, size_y, channels, data),
        Err(e) => l matches NpyLoad::Fails(f) && error_for(e, f),
    }
}

fn starts_with_zip_signature(buf: &[u8]) -> (r: bool)
    ensures
        r == (buf@.len() >= 4 && buf@.take(4) == zip_signature()),
{
    let r = buf.len() >= 4 && buf[0] == 0x50u8 && buf[1] == 0x4bu8 && buf[2] == 3u8 && buf[3]
        == 4u8;
    proof {
        if buf@.len() >= 4 {
            if r {
                assert(buf@.take(4) == zip_signature());
            } else {
                assert(buf@.take(4)[0] == buf@[0]);
                assert(buf@.take(4)[1] == buf@[1]);
                assert(buf@.take(4)[2] == buf@[2]);
                assert(buf@.take(4)[3] == buf@[3]);
            }
        }
    }
    r
}

/// Reads saved bytes: the layers of the `.npy` image they hold.
fn load_image<T: Vector>(buffer: &[u8]) -> (r: LoadRun<T>)
    ensures
        crate::load::run_matches(r, layers_load(buffer@, T::spec_dim())),
{
    if starts_with_zip_signature(buffer) {
        match read_first_entry(buffer) {
            Some(inner) => {
                return load_outcome(inner.as_slice());
            },
            None => {},
        }
    }
    load_outcome(buffer)
}

impl<T: Vector> Grid<T> {
    /// loads several layers saved as numpy array
    ///
    /// `buffer` is either an `.npy` image or a zip archive whose first entry
    /// is one, as saving writes it.
    pub fn load_layers_bytes(buffer: &[u8]) -> (r: Result<Vec<Grid<T>>, FileError>)
        requires
            !(layers_load(buffer@, T::spec_dim()) is Panics),
        ensures
            result_matches(r, layers_load(buffer@, T::spec_dim())),
    {
        match load_image(buffer) {
            LoadRun::Loaded(g) => Ok(g),
            LoadRun::Failed(e) => Err(e),
            LoadRun::Panics => {
                assert(false);
                Err(FileError::InvalidHeader)
            },
        }
    }

    /// Loads as `load_layers_bytes` does where that does not panic, and
    /// gives `None` on the inputs where it would.
    pub fn try_load_layers_bytes(buffer: &[u8]) -> (r: Option<Result<Vec<Grid<T>>, FileError>>)
        ensures
            r is None <==> layers_load(buffer@, T::spec_dim()) is Panics,
            r matches Some(res) ==> result_matches(res, layers_load(buffer@, T::spec_dim())),
    {
        match load_image(buffer) {
            LoadRun::Loaded(g) => Some(Ok(g)),
            LoadRun::Failed(e) => Some(Err(e)),
            LoadRun::Panics => None,
        }
    }

    /// The bytes that saving a stack of layers writes: a zip archive whose
    /// entry `0` is the stack's `.npy` image.
    pub fn save_several_layers_bytes(grid_layers: &[&Grid<T>]) -> (r: Vec<u8>)
        requires
            forall|i: int| 0 <= i < grid_layers@.len() ==> (#[trigger] grid_layers@[i]).wf(),
            layers_npy(grid_layers@.map_values(|g: &Grid<T>| *g)).len() <= u32::MAX,
        ensures
            r@ == stored_archive(layers_npy(grid_layers@.map_values(|g: &Grid<T>| *g))),
            r@.len() >= 4,
            r@.take(4) == zip_signature(),
            first_entry(r@) == Some(layers_npy(grid_layers@.map_values(|g: &Grid<T>| *g))),
    {
        let data = Self::several_layers_npy(grid_layers);
        write_stored_archive(data.as_slice())
    }
}

} // verus!
