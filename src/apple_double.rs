use vstd::prelude::*;
use crate::memory::read_u32_at;

verus! {

/// The first four bytes of every AppleDouble header file.
pub const APPLE_DOUBLE_MAGIC: u32 = 0x00051607;

/// Length of the fixed header: magic, version, filler and entry count.
pub const HEADER_LEN: usize = 26;

/// Length of one entry descriptor: id, offset and length.
pub const ENTRY_LEN: usize = 12;

/// Length of a Macintosh file info entry: Finder info and extended info.
pub const FILE_INFO_LEN: usize = 30;

/// The kinds of entry an AppleDouble file can hold.
#[derive(Debug, Clone, Copy, PartialEq, Eq, Structural)]
pub enum EntryType {
    DataFork,
    ResourceFork,
    RealName,
    Comment,
    IconBW,
    IconColor,
    FileDates,
    MacintoshFileInfo,
    MSDOSFileInfo,
    ShortName,
    DirectoryID,
}

/// The entry kind that an entry id stands for.
pub open spec fn entry_type_of(v: u32) -> Option<EntryType> {
    if v == 1 {
        Some(EntryType::DataFork)
    } else if v == 2 {
        Some(EntryType::ResourceFork)
    } else if v == 3 {
        Some(EntryType::RealName)
    } else if v == 4 {
        Some(EntryType::Comment)
    } else if v == 5 {
        Some(EntryType::IconBW)
    } else if v == 6 {
        Some(EntryType::IconColor)
    } else if v == 8 {
        Some(EntryType::FileDates)
    } else if v == 9 {
        Some(EntryType::MacintoshFileInfo)
    } else if v == 12 {
        Some(EntryType::MSDOSFileInfo)
    } else if v == 13 {
        Some(EntryType::ShortName)
    } else if v == 15 {
        Some(EntryType::DirectoryID)
    } else {
        None
    }
}

impl EntryType {
    pub fn from_u32(v: u32) -> (r: Option<EntryType>)
        ensures
            r == entry_type_of(v),
    {
        match v {
            1 => Some(EntryType::DataFork),
            2 => Some(EntryType::ResourceFork),
            3 => Some(EntryType::RealName),
            4 => Some(EntryType::Comment),
            5 => Some(EntryType::IconBW),
            6 => Some(EntryType::IconColor),
            8 => Some(EntryType::FileDates),
            9 => Some(EntryType::MacintoshFileInfo),
            12 => Some(EntryType::MSDOSFileInfo),
            13 => Some(EntryType::ShortName),
            15 => Some(EntryType::DirectoryID),
            _ => None,
        }
    }
}

#[derive(Debug, Clone, Copy)]
pub struct FinderInfo {
    pub type_id: u32,
    pub creator_id: u32,
    pub flags: u16,
    pub location: (i16, i16),
}

#[derive(Debug, Clone, Copy)]
pub struct ExtendedFinderInfo {
    pub _icon_id: u16,
    pub _unused: [u8; 6],
    pub _script_flag: u8,
    pub extended_flags: u8,
    pub _comment_id: u16,
    pub home_dir_id: u32,
}

#[derive(Debug, Clone, Copy)]
pub struct MacFileInfo {
    pub finder_info: FinderInfo,
    pub extended_info: [u8; 16],
}

#[derive(Debug, Clone, Copy)]
pub struct Header {
    pub _magic: u32,
    pub _version_number: u32,
    pub _filler: [u8; 16],
    pub entry_count: u16,
}

/// A decoded AppleDouble file: its header, its Finder information and its
/// resource fork.
#[derive(Debug)]
pub struct File {
    pub header: Header,
    pub file_info: MacFileInfo,
    pub resource: Vec<u8>,
}

/// Why an AppleDouble file could not be decoded.
#[derive(Debug, Clone, Copy, PartialEq, Eq, Structural)]
pub enum UnwrapError {
    /// The header, the entry table or the file info runs past the end.
    UnexpectedEnd,
    /// The resource fork entry points outside the file.
    ResourceOutOfRange,
    /// No entry holds the Macintosh file info.
    MissingFileInfo,
}

pub open spec fn be16_at(s: Seq<u8>, a: int) -> u16 {
    ((s[a] as u16) << 8u16) | (s[a + 1] as u16)
}

fn be16(s: &[u8], a: usize) -> (r: u16)
    requires
        a + 2 <= s@.len(),
    ensures
        r == be16_at(s@, a as int),
{
    ((s[a] as u16) << 8u16) | (s[a + 1] as u16)
}

fn be32(s: &[u8], a: usize) -> (r: u32)
    requires
        a + 4 <= s@.len(),
    ensures
        r == read_u32_at(s@, a as int),
{
    ((s[a] as u32) << 24u32) | ((s[a + 1] as u32) << 16u32) | ((s[a + 2] as u32) << 8u32) | (s[a
        + 3] as u32)
}

/// The bytes of `s` from `from` up to `to`.
fn copy_bytes(s: &[u8], from: usize, to: usize) -> (r: Vec<u8>)
    requires
        from <= to <= s@.len(),
    ensures
        r@ == s@.subrange(from as int, to as int),
{
    let mut out: Vec<u8> = Vec::new();
    let mut i: usize = from;
    while i < to
        invariant
            from <= i <= to <= s@.len(),
            out@ == s@.subrange(from as int, i as int),
        decreases to - i,
    {
        out.push(s[i]);
        i = i + 1;
        assert(out@ =~= s@.subrange(from as int, i as int));
    }
    out
}

/// The file starts with the AppleDouble magic number.
pub open spec fn is_apple_double_spec(s: Seq<u8>) -> bool {
    s.len() >= 4 && read_u32_at(s, 0) == APPLE_DOUBLE_MAGIC
}

pub fn is_apple_double(file: &[u8]) -> (r: bool)
    ensures
        r == is_apple_double_spec(file@),
{
    if file.len() < 4 {
        return false;
    }
    be32(file, 0) == APPLE_DOUBLE_MAGIC
}

/// Pairs a file with its companion as (resource file, data file). When `file`
/// is an AppleDouble header, `companion` is the data file found beside it;
/// otherwise `file` is the data and `companion` the resource file found for
/// it, which must itself be an AppleDouble header. Without a suitable
/// companion there is nothing to pair.
pub fn probe(file: &[u8], companion: Option<Vec<u8>>) -> (r: Option<(Vec<u8>, Vec<u8>)>)
    ensures
        r is Some <==> (companion matches Some(c) && (is_apple_double_spec(file@)
            || is_apple_double_spec(c@))),
        r matches Some(pair) ==> {
            let other = companion->Some_0@;
            &&& is_apple_double_spec(pair.0@)
            &&& if is_apple_double_spec(file@) {
                pair.0@ == file@ && pair.1@ == other
            } else {
                pair.0@ == other && pair.1@ == file@
            }
        },
{
    let other = match companion {
        Some(c) => c,
        None => {
            return None;
        },
    };
    if is_apple_double(file) {
        let own = copy_bytes(file, 0, file.len());
        Some((own, other))
    } else if is_apple_double(other.as_slice()) {
        let own = copy_bytes(file, 0, file.len());
        Some((other, own))
    } else {
        None
    }
}

fn array16(s: &[u8], a: usize) -> (r: [u8; 16])
    requires
        a + 16 <= s@.len(),
    ensures
        r@ == s@.subrange(a as int, a + 16),
{
    let n = s.len();
    let mut r = [0u8; 16];
    let mut i: usize = 0;
    while i < 16
        invariant
            n == s@.len(),
            i <= 16,
            a + 16 <= s@.len(),
            forall|k: int| 0 <= k < i ==> r@[k] == s@[a + k],
        decreases 16 - i,
    {
        r[i] = s[a + i];
        i = i + 1;
    }
    assert(r@ =~= s@.subrange(a as int, a + 16));
    r
}

/// The header read from the start of `s`.
pub open spec fn header_matches(h: Header, s: Seq<u8>) -> bool {
    &&& h._magic == read_u32_at(s, 0)
    &&& h._version_number == read_u32_at(s, 4)
    &&& h._filler@ == s.subrange(8, 24)
    &&& h.entry_count == be16_at(s, 24)
}

/// The Finder info read from `s` at `o`.
pub open spec fn finder_info_matches(f: FinderInfo, s: Seq<u8>, o: int) -> bool {
    &&& f.type_id == read_u32_at(s, o)
    &&& f.creator_id == read_u32_at(s, o + 4)
    &&& f.flags == be16_at(s, o + 8)
    &&& f.location == (as_i16(be16_at(s, o + 10)), as_i16(be16_at(s, o + 12)))
}

/// The Macintosh file info read from `s` at `o`.
pub open spec fn file_info_matches(m: MacFileInfo, s: Seq<u8>, o: int) -> bool {
    &&& finder_info_matches(m.finder_info, s, o)
    &&& m.extended_info@ == s.subrange(o + 14, o + 30)
}

/// The header and the whole entry table lie inside `s`.
pub open spec fn table_fits(s: Seq<u8>) -> bool {
    &&& s.len() >= HEADER_LEN
    &&& HEADER_LEN + ENTRY_LEN * be16_at(s, 24) <= s.len()
}

/// Id, offset and length of entry `k` of the table.
pub open spec fn entry_at(s: Seq<u8>, k: int) -> (u32, u32, u32) {
    let o = HEADER_LEN + ENTRY_LEN * k;
    (read_u32_at(s, o), read_u32_at(s, o + 4), read_u32_at(s, o + 8))
}

/// The entries of the table taken in order, up to entry `k`: where the last
/// resource fork lies (offset, length) and where the last file info starts.
/// The first entry that points outside the file stops the scan.
pub open spec fn scan(s: Seq<u8>, k: nat) -> Result<(Option<(u32, u32)>, Option<u32>), UnwrapError>
    decreases k,
{
    if k == 0 {
        Ok((None, None))
    } else {
        match scan(s, (k - 1) as nat) {
            Err(e) => Err(e),
            Ok((res, info)) => {
                let (id, off, len) = entry_at(s, k - 1);
                if entry_type_of(id) == Some(EntryType::ResourceFork) {
                    if off + len <= s.len() {
                        Ok((Some((off, len)), info))
                    } else {
                        Err(UnwrapError::ResourceOutOfRange)
                    }
                } else if entry_type_of(id) == Some(EntryType::MacintoshFileInfo) {
                    if off + FILE_INFO_LEN <= s.len() {
                        Ok((res, Some(off)))
                    } else {
                        Err(UnwrapError::UnexpectedEnd)
                    }
                } else {
                    Ok((res, info))
                }
            },
        }
    }
}

/// Once an entry stops the scan, later entries change nothing.
proof fn lemma_scan_err_stays(s: Seq<u8>, k: nat, n: nat)
    requires
        k <= n,
        scan(s, k) is Err,
    ensures
        scan(s, n) == scan(s, k),
    decreases n - k,
{
    if k < n {
        lemma_scan_err_stays(s, k, (n - 1) as nat);
    }
}

/// A big-endian 16-bit field read as a signed value.
pub open spec fn as_i16(v: u16) -> i16 {
    if v < 0x8000 {
        v as i16
    } else {
        (v - 0x10000) as i16
    }
}

fn to_i16(v: u16) -> (r: i16)
    ensures
        r == as_i16(v),
{
    if v < 0x8000 {
        v as i16
    } else {
        (v as i32 - 0x10000) as i16
    }
}

/// Decodes an AppleDouble file: its header, its file info and its resource
/// fork. Where several entries of one kind occur the last one counts; a file
/// without a resource fork entry has an empty one.
pub fn unwrap(file: &[u8]) -> (r: Result<File, UnwrapError>)
    ensures
        !table_fits(file@) ==> r == Err::<File, UnwrapError>(UnwrapError::UnexpectedEnd),
        table_fits(file@) ==> match scan(file@, be16_at(file@, 24) as nat) {
            Err(e) => r == Err::<File, UnwrapError>(e),
            Ok((_, None)) => r == Err::<File, UnwrapError>(UnwrapError::MissingFileInfo),
            Ok((res, Some(o))) => r matches Ok(f) && {
                &&& header_matches(f.header, file@)
                &&& file_info_matches(f.file_info, file@, o as int)
                &&& f.resource@ == match res {
                    Some((a, l)) => file@.subrange(a as int, a + l),
                    None => Seq::<u8>::empty(),
                }
            },
        },
{
    if file.len() < HEADER_LEN {
        return Err(UnwrapError::UnexpectedEnd);
    }
    let count = be16(file, 24) as usize;
    if HEADER_LEN + ENTRY_LEN * count > file.len() {
        return Err(UnwrapError::UnexpectedEnd);
    }
    let header = Header {
        _magic: be32(file, 0),
        _version_number: be32(file, 4),
        _filler: array16(file, 8),
        entry_count: count as u16,
    };
    let mut res: Option<(u32, u32)> = None;
    let mut info: Option<u32> = None;
    let mut k: usize = 0;
    while k < count
        invariant
            table_fits(file@),
            count == be16_at(file@, 24),
            k <= count,
            scan(file@, k as nat) == Ok::<(Option<(u32, u32)>, Option<u32>), UnwrapError>(
                (res, info),
            ),
            res matches Some((a, l)) ==> a + l <= file@.len(),
            info matches Some(o) ==> o + FILE_INFO_LEN <= file@.len(),
        decreases count - k,
    {
        let o = HEADER_LEN + ENTRY_LEN * k;
        let id = be32(file, o);
        let off = be32(file, o + 4);
        let len = be32(file, o + 8);
        let kind = EntryType::from_u32(id);
        assert(entry_at(file@, k as int) == (id, off, len));
        if kind == Some(EntryType::ResourceFork) {
            if off as usize > file.len() || file.len() - (off as usize) < len as usize {
                proof {
                    lemma_scan_err_stays(file@, (k + 1) as nat, count as nat);
                }
                return Err(UnwrapError::ResourceOutOfRange);
            }
            res = Some((off, len));
        } else if kind == Some(EntryType::MacintoshFileInfo) {
            if off as usize > file.len() || file.len() - (off as usize) < FILE_INFO_LEN {
                proof {
                    lemma_scan_err_stays(file@, (k + 1) as nat, count as nat);
                }
                return Err(UnwrapError::UnexpectedEnd);
            }
            info = Some(off);
        }
        k = k + 1;
    }
    let o = match info {
        Some(o) => o as usize,
        None => {
            return Err(UnwrapError::MissingFileInfo);
        },
    };
    let resource = match res {
        Some((a, l)) => copy_bytes(file, a as usize, a as usize + l as usize),
        None => Vec::new(),
    };
    let finder_info = FinderInfo {
        type_id: be32(file, o),
        creator_id: be32(file, o + 4),
        flags: be16(file, o + 8),
        location: (to_i16(be16(file, o + 10)), to_i16(be16(file, o + 12))),
    };
    let file_info = MacFileInfo { finder_info, extended_info: array16(file, o + 14) };
    Ok(File { header, file_info, resource })
}

} // verus!
