//! Reading the files of a mission archive (`.miz`, a zip archive).
use vstd::prelude::*;

verus! {

/// The bytes of file `name` in zip archive `archive`, as the zip crate reads
/// them, or `None` where the archive cannot be read, has no such file, or
/// the file cannot be read in full.
pub uninterp spec fn zip_entry(archive: Seq<u8>, name: Seq<char>) -> Option<Seq<u8>>;

/// Calls `zip::ZipArchive::new` on the bytes, `by_name` with `name`, and
/// `read_to_end` on that file. The result is named `zip_entry` of the bytes
/// and the name.
#[verifier::external_body]
fn read_zip_entry(archive: &[u8], name: &str) -> (res: Option<Vec<u8>>)
    ensures
        res matches Some(v) ==> zip_entry(archive@, name@) == Some(v@),
        res is None ==> zip_entry(archive@, name@) is None,
{
    let mut zip = zip::ZipArchive::new(std::io::Cursor::new(archive)).ok()?;
    let mut file = zip.by_name(name).ok()?;
    let mut v: Vec<u8> = Vec::new();
    std::io::Read::read_to_end(&mut file, &mut v).ok()?;
    Some(v)
}

/// The mission archive lacks a readable file of this name, or cannot be
/// read at all.
#[derive(Debug, Clone, PartialEq)]
pub struct MizError {
    pub entry: String,
}

/// The bytes of file `name` of mission archive `miz`; fails, naming the
/// file, where the archive has no such readable file.
pub fn miz_entry(miz: &[u8], name: &str) -> (res: Result<Vec<u8>, MizError>)
    ensures
        match zip_entry(miz@, name@) {
            Some(v) => res matches Ok(b) && b@ == v,
            None => res matches Err(e) && e.entry@ == name@,
        },
{
    match read_zip_entry(miz, name) {
        Some(v) => Ok(v),
        None => Err(MizError { entry: name.to_owned() }),
    }
}

} // verus!
