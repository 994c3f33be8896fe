//! Building an initramfs image from a list of files.
//!
//! The header holds the magic number, the number of files and one metadata
//! object per file; after it come, file by file, the name and the content.

use vstd::prelude::*;
use byteorder::{BigEndian, ByteOrder};
use vstd::utf8::valid_utf8;
use crate::file_handle::FileError;
use crate::initramfs::{
    spec_open, find_file, spec_initramfs_valid, header_in_range, entries_in_range, entry_in_range, visible,
    entry_fits, name_bytes,
    spec_magic, magic, spec_be_u64, be_at, file_count, name_offset, name_length, content_offset,
    content_length, HEADER_SIZE, FILE_METADATA_SIZE,
};

verus! {

/// A file to be placed in the initramfs.
pub struct InitramfsFile {
    /// The name of the file within the initramfs.
    pub name: Vec<u8>,
    /// The content of the file.
    pub content: Vec<u8>,
}

/// The eight bytes of `n`, most significant first.
pub open spec fn be_bytes(n: u64) -> Seq<u8> {
    seq![
        (n >> 56u64) as u8,
        (n >> 48u64) as u8,
        (n >> 40u64) as u8,
        (n >> 32u64) as u8,
        (n >> 24u64) as u8,
        (n >> 16u64) as u8,
        (n >> 8u64) as u8,
        n as u8,
    ]
}

/// Encodes `n` as eight big endian bytes with `BigEndian::write_u64` of the
/// byteorder crate, which copies `n.to_be_bytes()` into the buffer: the most
/// significant byte comes first.
#[verifier::external_body]
fn encode_u64_be(n: u64) -> (r: [u8; 8])
    ensures
        r@ == be_bytes(n),
{
    let mut buffer = [0u8; 8];
    BigEndian::write_u64(&mut buffer, n);
    buffer
}

/// Reading back the eight bytes of a number gives the number.
pub proof fn lemma_be_roundtrip(n: u64)
    ensures
        spec_be_u64(be_bytes(n)) == n,
{
    let b = be_bytes(n);
    assert(b[0] == (n >> 56u64) as u8);
    assert(b[7] == n as u8);
    assert(((((n >> 56u64) as u8) as u64) << 56u64) | ((((n >> 48u64) as u8) as u64) << 48u64) | ((((n
        >> 40u64) as u8) as u64) << 40u64) | ((((n >> 32u64) as u8) as u64) << 32u64) | ((((n >> 24u64) as u8)
        as u64) << 24u64) | ((((n >> 16u64) as u8) as u64) << 16u64) | ((((n >> 8u64) as u8) as u64) << 8u64)
        | ((n as u8) as u64) == n) by (bit_vector);
}

/// The length of the names and contents of the first `k` files.
pub open spec fn data_length(files: Seq<InitramfsFile>, k: int) -> int
    decreases k,
{
    if k <= 0 {
        0
    } else {
        data_length(files, k - 1) + files[k - 1].name@.len() + files[k - 1].content@.len()
    }
}

/// The length of the header for `count` files.
pub open spec fn header_length(count: int) -> int {
    HEADER_SIZE + FILE_METADATA_SIZE * count
}

/// Where the name of file `k` is placed.
pub open spec fn name_position(files: Seq<InitramfsFile>, k: int) -> int {
    header_length(files.len() as int) + data_length(files, k)
}

/// Where the content of file `k` is placed.
pub open spec fn content_position(files: Seq<InitramfsFile>, k: int) -> int {
    name_position(files, k) + files[k].name@.len()
}

/// The metadata of file `k` names where its name and content lie in the
/// image, and they are there.
pub open spec fn file_placed(image: Seq<u8>, files: Seq<InitramfsFile>, k: int) -> bool {
    &&& name_offset(image, k) == name_position(files, k)
    &&& name_length(image, k) == files[k].name@.len()
    &&& content_offset(image, k) == content_position(files, k)
    &&& content_length(image, k) == files[k].content@.len()
    &&& image.subrange(name_position(files, k), name_position(files, k) + files[k].name@.len()) == files[k].name@
    &&& image.subrange(content_position(files, k), content_position(files, k) + files[k].content@.len())
        == files[k].content@
}

/// The image holds the header and the first `k` files.
pub open spec fn image_holds_prefix(image: Seq<u8>, files: Seq<InitramfsFile>, k: int) -> bool {
    &&& image.len() == name_position(files, k)
    &&& image.subrange(0, 8) == spec_magic()
    &&& file_count(image) == files.len()
    &&& forall|j: int| 0 <= j < k ==> #[trigger] file_placed(image, files, j)
}

/// The image holds the header and all the files.
pub open spec fn image_holds(image: Seq<u8>, files: Seq<InitramfsFile>) -> bool {
    image_holds_prefix(image, files, files.len() as int)
}

/// The whole image stays within the range of `u64`.
pub open spec fn image_fits(files: Seq<InitramfsFile>) -> bool {
    name_position(files, files.len() as int) <= u64::MAX
}

proof fn lemma_data_length_monotone(files: Seq<InitramfsFile>, j: int, k: int)
    requires
        0 <= j <= k,
    ensures
        data_length(files, j) <= data_length(files, k),
    decreases k - j,
{
    if j < k {
        lemma_data_length_monotone(files, j, k - 1);
    }
}

/// Writes the big endian bytes of `n` at `position`.
fn put_u64_be(image: &mut Vec<u8>, position: usize, n: u64)
    requires
        position + 8 <= old(image)@.len(),
    ensures
        final(image)@.len() == old(image)@.len(),
        final(image)@.subrange(position as int, position + 8) == be_bytes(n),
        forall|x: int| 0 <= x < old(image)@.len() && !(position <= x < position + 8) ==> final(image)@[x]
            == old(image)@[x],
{
    let bytes = encode_u64_be(n);
    let len = image.len();
    let mut i: usize = 0;
    while i < 8
        invariant
            0 <= i <= 8,
            len == image@.len(),
            position + 8 <= image@.len(),
            image@.len() == old(image)@.len(),
            bytes@ == be_bytes(n),
            forall|j: int| 0 <= j < i ==> image@[position + j] == bytes@[j],
            forall|x: int| 0 <= x < old(image)@.len() && !(position <= x < position + i) ==> image@[x] == old(image)@[x],
        decreases 8 - i,
    {
        image.set(position + i, bytes[i]);
        i = i + 1;
    }
    assert(image@.subrange(position as int, position + 8) =~= be_bytes(n));
}

/// Appends the bytes to the image.
fn append(image: &mut Vec<u8>, bytes: &Vec<u8>)
    ensures
        final(image)@ == old(image)@ + bytes@,
{
    let mut i: usize = 0;
    while i < bytes.len()
        invariant
            0 <= i <= bytes@.len(),
            image@ == old(image)@ + bytes@.subrange(0, i as int),
        decreases bytes@.len() - i,
    {
        image.push(bytes[i]);
        i = i + 1;
        assert(image@ =~= old(image)@ + bytes@.subrange(0, i as int));
    }
    assert(bytes@.subrange(0, bytes@.len() as int) =~= bytes@);
}

/// Writes the header: the magic number, the number of files and room for
/// the metadata of every file.
///
/// Returns the size of the header.
pub fn write_file_header(image: &mut Vec<u8>, file_count_: u64) -> (r: u64)
    requires
        old(image)@.len() == 0,
        header_length(file_count_ as int) <= u64::MAX,
    ensures
        r == header_length(file_count_ as int),
        final(image)@.len() == r,
        final(image)@.subrange(0, 8) == spec_magic(),
        file_count(final(image)@) == file_count_,
{
    let m = magic();
    let mut i: usize = 0;
    while i < 8
        invariant
            0 <= i <= 8,
            m@ == spec_magic(),
            image@ == m@.subrange(0, i as int),
        decreases 8 - i,
    {
        image.push(m[i]);
        i = i + 1;
        assert(image@ =~= m@.subrange(0, i as int));
    }
    let header_len = HEADER_SIZE + FILE_METADATA_SIZE * file_count_;
    while (image.len() as u64) < header_len
        invariant
            image@.len() <= header_len,
            image@.len() >= 8,
            image@.subrange(0, 8) == spec_magic(),
            header_len <= u64::MAX,
            header_len >= 16,
        decreases header_len - image@.len(),
    {
        image.push(0u8);
        assert(image@.subrange(0, 8) =~= spec_magic());
    }
    put_u64_be(image, 8, file_count_);
    assert(image@.subrange(0, 8) =~= spec_magic());
    proof {
        lemma_be_roundtrip(file_count_);
    }
    header_len
}

proof fn lemma_unchanged_subrange(a: Seq<u8>, b: Seq<u8>, lo: int, hi: int)
    requires
        0 <= lo <= hi <= a.len(),
        hi <= b.len(),
        forall|x: int| lo <= x < hi ==> a[x] == b[x],
    ensures
        a.subrange(lo, hi) == b.subrange(lo, hi),
{
    assert(a.subrange(lo, hi) =~= b.subrange(lo, hi));
}


/// Changing bytes outside the metadata and data of file `j` keeps it
/// placed.
proof fn lemma_keep_placed(a: Seq<u8>, b: Seq<u8>, files: Seq<InitramfsFile>, j: int, lo: int, hi: int)
    requires
        file_placed(a, files, j),
        0 <= j,
        b.len() >= a.len(),
        header_length(j + 1) <= lo,
        lo <= hi,
        header_length(files.len() as int) <= name_position(files, j),
        content_position(files, j) + files[j].content@.len() <= a.len(),
        hi <= header_length(files.len() as int),
        forall|x: int| 0 <= x < a.len() && !(lo <= x < hi) ==> b[x] == a[x],
    ensures
        file_placed(b, files, j),
{
    let m = header_length(j);
    assert(m + 32 <= lo);
    lemma_unchanged_subrange(a, b, m, m + 8);
    lemma_unchanged_subrange(a, b, m + 8, m + 16);
    lemma_unchanged_subrange(a, b, m + 16, m + 24);
    lemma_unchanged_subrange(a, b, m + 24, m + 32);
    lemma_unchanged_subrange(a, b, name_position(files, j), name_position(files, j) + files[j].name@.len());
    lemma_unchanged_subrange(a, b, content_position(files, j), content_position(files, j) + files[j].content@.len());
}

proof fn lemma_file_written(
    before: Seq<u8>,
    r: Seq<u8>,
    fs: Seq<InitramfsFile>,
    k: int,
    name_at: u64,
    content_at: u64,
)
    requires
        image_holds_prefix(before, fs, k),
        0 <= k < fs.len(),
        image_fits(fs),
        name_at == before.len(),
        content_at == before.len() + fs[k].name@.len(),
        r.len() == content_at + fs[k].content@.len(),
        forall|x: int| 0 <= x < before.len() && !(header_length(k) <= x < header_length(k) + 32) ==> r[x] == before[x],
        r.subrange(name_at as int, name_at + fs[k].name@.len()) == fs[k].name@,
        r.subrange(content_at as int, content_at + fs[k].content@.len()) == fs[k].content@,
        r.subrange(header_length(k), header_length(k) + 8) == be_bytes(name_at),
        r.subrange(header_length(k) + 8, header_length(k) + 16) == be_bytes(fs[k].name@.len() as u64),
        r.subrange(header_length(k) + 16, header_length(k) + 24) == be_bytes(content_at),
        r.subrange(header_length(k) + 24, header_length(k) + 32) == be_bytes(fs[k].content@.len() as u64),
    ensures
        image_holds_prefix(r, fs, k + 1),
{
    let n = fs.len() as int;
    let m = header_length(k);
    lemma_data_length_monotone(fs, k + 1, n);
    lemma_data_length_monotone(fs, 0, k);
    assert(header_length(k + 1) <= header_length(n));
    lemma_unchanged_subrange(before, r, 0, 8);
    lemma_unchanged_subrange(before, r, 8, 16);
    lemma_be_roundtrip(name_at);
    lemma_be_roundtrip(fs[k].name@.len() as u64);
    lemma_be_roundtrip(content_at);
    lemma_be_roundtrip(fs[k].content@.len() as u64);
    assert(file_placed(r, fs, k));
    assert forall|j: int| 0 <= j < k + 1 implies #[trigger] file_placed(r, fs, j) by {
        if j < k {
            lemma_data_length_monotone(fs, j + 1, k);
            lemma_data_length_monotone(fs, 0, j);
            assert(header_length(j + 1) <= m);
            assert(file_placed(before, fs, j));
            lemma_keep_placed(before, r, fs, j, m, m + 32);
        }
    }
}

/// Writes file `file_num` to the image: appends its name and content and
/// fills in its metadata.
pub fn write_file(image: &mut Vec<u8>, files: &Vec<InitramfsFile>, file_num: usize)
    requires
        file_num < files@.len(),
        image_holds_prefix(old(image)@, files@, file_num as int),
        image_fits(files@),
    ensures
        image_holds_prefix(final(image)@, files@, file_num + 1),
{
    let ghost fs = files@;
    let ghost n = fs.len() as int;
    let ghost k = file_num as int;
    let ghost before = image@;
    proof {
        lemma_data_length_monotone(fs, k + 1, n);
        assert(header_length(k + 1) <= header_length(n)) by (nonlinear_arith)
            requires
                k + 1 <= n,
        ;
        lemma_data_length_monotone(fs, 0, k);
        assert(header_length(n) <= before.len());
        assert(header_length(k) + 32 <= before.len());
    }
    let file = &files[file_num];
    let metadata_start = (HEADER_SIZE + FILE_METADATA_SIZE * file_num as u64) as usize;

    // Write the file name.
    let name_at = image.len() as u64;
    append(image, &file.name);

    // Write the file content.
    let content_at = image.len() as u64;
    append(image, &file.content);
    let ghost appended = image@;
    assert(appended.len() == name_position(fs, k + 1));

    // Write the metadata.
    assert(metadata_start == header_length(k));
    put_u64_be(image, metadata_start, name_at);
    let ghost w1 = image@;
    put_u64_be(image, metadata_start + 8, file.name.len() as u64);
    let ghost w2 = image@;
    put_u64_be(image, metadata_start + 16, content_at);
    let ghost w3 = image@;
    put_u64_be(image, metadata_start + 24, file.content.len() as u64);
    proof {
        let r = image@;
        let m = header_length(k);
        lemma_unchanged_subrange(w1, r, m, m + 8);
        lemma_unchanged_subrange(w2, r, m + 8, m + 16);
        lemma_unchanged_subrange(w3, r, m + 16, m + 24);
        assert forall|x: int| 0 <= x < before.len() implies appended[x] == before[x] by {}
        assert(appended.subrange(name_at as int, name_at + file.name@.len()) =~= file.name@);
        assert(appended.subrange(content_at as int, content_at + file.content@.len()) =~= file.content@);
        lemma_unchanged_subrange(appended, r, name_at as int, name_at + file.name@.len());
        lemma_unchanged_subrange(appended, r, content_at as int, content_at + file.content@.len());
        lemma_file_written(before, r, fs, k, name_at, content_at);
    }
}

/// Builds the initramfs image holding the given files, in their order.
pub fn build_image(files: &Vec<InitramfsFile>) -> (r: Vec<u8>)
    requires
        image_fits(files@),
    ensures
        image_holds(r@, files@),
{
    let ghost fs = files@;
    proof {
        lemma_data_length_monotone(fs, 0, fs.len() as int);
    }
    let mut image: Vec<u8> = Vec::new();
    write_file_header(&mut image, files.len() as u64);
    let mut file_num: usize = 0;
    while file_num < files.len()
        invariant
            fs == files@,
            0 <= file_num <= fs.len(),
            image_holds_prefix(image@, fs, file_num as int),
            image_fits(fs),
        decreases fs.len() - file_num,
    {
        write_file(&mut image, files, file_num);
        file_num = file_num + 1;
    }
    image
}


proof fn lemma_built_entries(image: Seq<u8>, files: Seq<InitramfsFile>, j: int)
    requires
        image_holds(image, files),
        image_fits(files),
        0 <= j < files.len(),
    ensures
        entry_fits(image, j),
        entry_in_range(image, j),
        name_bytes(image, j) == files[j].name@,
        visible(image, j) == valid_utf8(files[j].name@),
{
    assert(file_placed(image, files, j));
    lemma_data_length_monotone(files, j + 1, files.len() as int);
}

proof fn lemma_find_built(image: Seq<u8>, files: Seq<InitramfsFile>, name: Seq<u8>, k: int, i: int)
    requires
        image_holds(image, files),
        image_fits(files),
        0 <= i <= k <= files.len(),
        forall|j: int| 0 <= j < files.len() ==> valid_utf8(#[trigger] files[j].name@),
        forall|j: int| 0 <= j < k ==> #[trigger] files[j].name@ != name,
        k < files.len() ==> files[k].name@ == name,
    ensures
        find_file(image, name, i) == k,
    decreases k - i,
{
    if i < k {
        lemma_built_entries(image, files, i);
        assert(files[i].name@ != name);
        lemma_find_built(image, files, name, k, i + 1);
    } else if k < files.len() {
        lemma_built_entries(image, files, k);
    }
}

proof fn lemma_built_valid(image: Seq<u8>, files: Seq<InitramfsFile>)
    requires
        image_holds(image, files),
        image_fits(files),
    ensures
        spec_initramfs_valid(image),
        header_in_range(image),
        forall|i: int, j: int| entries_in_range(image, i, j),
{
    lemma_data_length_monotone(files, 0, files.len() as int);
    assert forall|i: int, j: int| entries_in_range(image, i, j) by {
        assert forall|x: int| i <= x <= j && 0 <= x < file_count(image) implies #[trigger] entry_in_range(image, x) by {
            lemma_built_entries(image, files, x);
        }
    }
}

/// Opening a built image by the name of one of its files finds the first
/// file with that name, and the bytes it opens are that file's content;
/// file names are taken to be valid UTF-8, as they are text.
pub proof fn lemma_open_finds_written_file(image: Seq<u8>, files: Seq<InitramfsFile>, k: int)
    requires
        image_holds(image, files),
        image_fits(files),
        0 <= k < files.len(),
        forall|j: int| 0 <= j < files.len() ==> valid_utf8(#[trigger] files[j].name@),
        forall|j: int| 0 <= j < k ==> #[trigger] files[j].name@ != files[k].name@,
    ensures
        header_in_range(image),
        entries_in_range(image, 0, find_file(image, files[k].name@, 0)),
        spec_open(image, files[k].name@) == Ok::<(u64, u64), FileError>(
            (content_position(files, k) as u64, files[k].content@.len() as u64),
        ),
        image.subrange(content_position(files, k), content_position(files, k) + files[k].content@.len())
            == files[k].content@,
{
    lemma_built_valid(image, files);
    lemma_find_built(image, files, files[k].name@, k, 0);
    assert(file_placed(image, files, k));
}

/// Opening a built image by a name that none of its files has finds no
/// file.
pub proof fn lemma_open_missing_file(image: Seq<u8>, files: Seq<InitramfsFile>, name: Seq<u8>)
    requires
        image_holds(image, files),
        image_fits(files),
        forall|j: int| 0 <= j < files.len() ==> valid_utf8(#[trigger] files[j].name@),
        forall|j: int| 0 <= j < files.len() ==> #[trigger] files[j].name@ != name,
    ensures
        header_in_range(image),
        entries_in_range(image, 0, find_file(image, name, 0)),
        spec_open(image, name) == Err::<(u64, u64), FileError>(FileError::FileNotFound),
{
    lemma_built_valid(image, files);
    lemma_find_built(image, files, name, files.len() as int, 0);
}

} // verus!
