//! Memory files: which are read, what is kept of them, how they are ranked and shown.
use crate::file_name;
use crate::json;
use crate::memory_text;
use crate::text;
use sha2::Digest;
use vstd::prelude::*;

verus! {

pub const MAX_MEMORY_FILE_BYTES: u64 = 524_288;

pub const MAX_MEMORY_TOTAL_BYTES: u64 = 4_194_304;

pub const MAX_MEMORY_DEPTH: usize = 4;

pub const MAX_MEMORY_CHUNKS: usize = 96;

pub const MAX_QUERY_CHARS: usize = 4_000;

pub const MAX_CONTEXT_CHARS: usize = 6_000;

pub const MAX_RANKED_CHUNKS: usize = 5;

// ---------------------------------------------------------------------------------------
// Digests
// ---------------------------------------------------------------------------------------

/// The SHA-256 digest of bytes.
pub uninterp spec fn sha256_digest(bytes: Seq<u8>) -> Seq<u8>;

/// `sha2::Sha256::digest` gives the SHA-256 digest of its argument, which has 32 bytes.
#[verifier::external_body]
fn sha256(bytes: &[u8]) -> (r: Vec<u8>)
    ensures
        r@ == sha256_digest(bytes@),
        r@.len() == 32,
{
    sha2::Sha256::digest(bytes).to_vec()
}

/// Bytes in hexadecimal digits, two for each byte.
pub open spec fn hex(bytes: Seq<u8>) -> Seq<char>
    decreases bytes.len(),
{
    if bytes.len() == 0 {
        Seq::empty()
    } else {
        hex(bytes.drop_last()).push(json::hex_digit(bytes.last() as nat / 16)).push(
            json::hex_digit(bytes.last() as nat % 16),
        )
    }
}

fn hex_char(n: u8) -> (c: char)
    requires
        n < 16,
    ensures
        c == json::hex_digit(n as nat),
{
    if n < 10 {
        (48 + n) as char
    } else {
        (87 + n) as char
    }
}

/// The SHA-256 digest of bytes in hexadecimal digits.
pub fn sha256_hex(bytes: &[u8]) -> (r: String)
    ensures
        r@ == hex(sha256_digest(bytes@)),
{
    let digest = sha256(bytes);
    let mut r: Vec<char> = Vec::new();
    for i in 0..digest.len()
        invariant
            r@ == hex(digest@.take(i as int)),
    {
        assert(digest@.take(i + 1).drop_last() =~= digest@.take(i as int));
        r.push(hex_char(digest[i] / 16));
        r.push(hex_char(digest[i] % 16));
    }
    assert(digest@.take(digest@.len() as int) =~= digest@);
    text::text_of(r.as_slice())
}

// ---------------------------------------------------------------------------------------
// Files
// ---------------------------------------------------------------------------------------

/// What happens to an entry of a memory directory.
#[derive(Clone, Copy, Debug, PartialEq, Eq, Structural)]
pub enum EntryAction {
    Skip,
    Descend,
    Take,
}

/// What kind of file system entry stands at a path.
#[derive(Clone, Copy, Debug, PartialEq, Eq, Structural)]
pub enum EntryKind {
    Symlink,
    Directory,
    File,
    Other,
}

/// Whether a file name is that of a text: its extension is one of four, in any case.
pub open spec fn memory_text_name(name: Seq<char>) -> bool {
    match file_name::extension_of(name) {
        Some(e) => {
            let e = text::lowered(e);
            e == "md"@ || e == "markdown"@ || e == "txt"@ || e == "rst"@
        },
        None => false,
    }
}

/// Symbolic links and hidden entries are left alone; directories are searched, and text files taken.
pub open spec fn entry_action(name: Seq<char>, kind: EntryKind) -> EntryAction {
    if kind == EntryKind::Symlink || (name.len() > 0 && name[0] == '.') {
        EntryAction::Skip
    } else if kind == EntryKind::Directory {
        EntryAction::Descend
    } else if kind == EntryKind::File && memory_text_name(name) {
        EntryAction::Take
    } else {
        EntryAction::Skip
    }
}

pub fn is_memory_text_file(name: &str) -> (r: bool)
    ensures
        r == memory_text_name(name@),
{
    match file_name::extension(text::chars_of(name).as_slice()) {
        Some(e) => {
            let e = text::text_of(text::lower_chars(e.as_slice()).as_slice());
            text::same_text(e.as_str(), "md") || text::same_text(e.as_str(), "markdown")
                || text::same_text(e.as_str(), "txt") || text::same_text(e.as_str(), "rst")
        },
        None => false,
    }
}

/// Decides what happens to an entry of a memory directory.
pub fn memory_entry_action(name: &str, kind: EntryKind) -> (r: EntryAction)
    ensures
        r == entry_action(name@, kind),
{
    let chars = text::chars_of(name);
    if kind == EntryKind::Symlink || (chars.len() > 0 && chars[0] == '.') {
        EntryAction::Skip
    } else if kind == EntryKind::Directory {
        EntryAction::Descend
    } else if kind == EntryKind::File && is_memory_text_file(name) {
        EntryAction::Take
    } else {
        EntryAction::Skip
    }
}

/// Whether the directories at a depth below the memory directory are searched.
pub fn searches_depth(depth: usize) -> (r: bool)
    ensures
        r == (depth <= MAX_MEMORY_DEPTH),
{
    depth <= MAX_MEMORY_DEPTH
}

/// A piece of a memory file.
pub struct MemoryChunk {
    pub cache_key: String,
    pub path: String,
    pub text: String,
    pub tokens: Vec<String>,
}

pub struct ChunkModel {
    pub cache_key: Seq<char>,
    pub path: Seq<char>,
    pub text: Seq<char>,
    pub tokens: Seq<Seq<char>>,
}

impl View for MemoryChunk {
    type V = ChunkModel;

    open spec fn view(&self) -> ChunkModel {
        ChunkModel {
            cache_key: self.cache_key@,
            path: self.path@,
            text: self.text@,
            tokens: text::strings(self.tokens@),
        }
    }
}

/// The chunk of a text of the file at a path.
pub open spec fn chunk_of(path: Seq<char>, s: Seq<char>) -> ChunkModel {
    ChunkModel {
        cache_key: hex(sha256_digest(vstd::utf8::encode_utf8(s))),
        path,
        text: s,
        tokens: memory_text::terms_of(s),
    }
}

pub open spec fn chunk_models(chunks: Seq<MemoryChunk>) -> Seq<ChunkModel> {
    chunks.map_values(|c: MemoryChunk| c@)
}

/// Makes the chunk of a text of the file at a path.
pub fn memory_chunk(path: &str, text: String) -> (r: MemoryChunk)
    ensures
        r@ == chunk_of(path@, text@),
{
    MemoryChunk {
        cache_key: sha256_hex(text.as_str().as_bytes()),
        path: path.to_owned(),
        tokens: memory_text::tokenize(text.as_str()),
        text,
    }
}

/// `String::from_utf8` gives the text whose UTF-8 encoding the bytes are, and an error where they
/// are no such encoding.
#[verifier::external_body]
pub(crate) fn utf8_text(bytes: Vec<u8>) -> (r: Option<String>)
    ensures
        match r {
            Some(s) => vstd::utf8::valid_utf8(bytes@) && s@ == vstd::utf8::decode_utf8(bytes@),
            None => !vstd::utf8::valid_utf8(bytes@),
        },
{
    String::from_utf8(bytes).ok()
}

/// The chunks of the memory files that have been read so far.
pub struct MemoryCollector {
    pub total_bytes: u64,
    pub chunks: Vec<MemoryChunk>,
    pub full: bool,
}

impl MemoryCollector {
    /// The limits that the collected chunks keep, and that each chunk is that of its text.
    pub open spec fn wf(self) -> bool {
        &&& self.total_bytes <= MAX_MEMORY_TOTAL_BYTES
        &&& self.chunks@.len() <= MAX_MEMORY_CHUNKS
        &&& self.full ==> self.chunks@.len() == MAX_MEMORY_CHUNKS
        &&& forall|i: int|
            0 <= i < self.chunks@.len() ==> (#[trigger] self.chunks@[i])@ == chunk_of(
                self.chunks@[i].path@,
                self.chunks@[i].text@,
            ) && memory_text::is_chunk(self.chunks@[i].text@)
    }

    pub fn new() -> (r: MemoryCollector)
        ensures
            r.wf(),
            r.total_bytes == 0,
            r.chunks@.len() == 0,
            !r.full,
    {
        MemoryCollector { total_bytes: 0, chunks: Vec::new(), full: false }
    }

    /// Whether a file of this length is read: while there is room for chunks, where it is no symbolic
    /// link and neither its length nor that of all files goes over a limit.
    pub open spec fn wants_file(self, symlink: bool, length: u64) -> bool {
        !self.full && !symlink && length <= MAX_MEMORY_FILE_BYTES && self.total_bytes + length
            <= MAX_MEMORY_TOTAL_BYTES
    }

    pub fn wants(&self, symlink: bool, length: u64) -> (r: bool)
        requires
            self.wf(),
        ensures
            r == self.wants_file(symlink, length),
    {
        !self.full && !symlink && length <= MAX_MEMORY_FILE_BYTES && self.total_bytes + length
            <= MAX_MEMORY_TOTAL_BYTES
    }

    /// Takes in the content of a file of the given length. Content that is no UTF-8 is ignored.
    pub fn add_file(&mut self, relative: &str, length: u64, content: Vec<u8>)
        requires
            old(self).wf(),
            old(self).wants_file(false, length),
        ensures
            final(self).wf(),
            !vstd::utf8::valid_utf8(content@) ==> *final(self) == *old(self),
            vstd::utf8::valid_utf8(content@) ==> final(self).total_bytes == old(self).total_bytes
                + length && ({
                let chunks = chunk_models(old(self).chunks@) + file_chunks(
                    relative@,
                    vstd::utf8::decode_utf8(content@),
                );
                &&& final(self).full == (chunks.len() > MAX_MEMORY_CHUNKS)
                &&& chunk_models(final(self).chunks@) == (if chunks.len() > MAX_MEMORY_CHUNKS {
                    chunks.take(MAX_MEMORY_CHUNKS as int)
                } else {
                    chunks
                })
            }),
    {
        let content_text = match utf8_text(content) {
            Some(s) => s,
            None => {
                return ;
            },
        };
        self.total_bytes = self.total_bytes + length;
        let slash = vec!['/'];
        let path = text::text_of(
            text::replace(text::chars_of(relative).as_slice(), '\\', slash.as_slice()).as_slice(),
        );
        assert(slash@ =~= seq!['/']);
        let parts = memory_text::chunk_memory_text(content_text.as_str());
        let ghost start = chunk_models(self.chunks@);
        let ghost all = start + file_chunks(relative@, content_text@);
        let ghost texts = memory_text::chunks_of(content_text@);
        proof {
            memory_text::law_chunks_are_bounded(content_text@);
        }
        assert(chunk_models(self.chunks@) =~= all.take(start.len() as int));
        for i in 0..parts.len()
            invariant
                texts == memory_text::chunks_of(content_text@),
                text::strings(parts@) == texts,
                path@ == text::replaced(relative@, '\\', seq!['/']),
                all == start + file_chunks(relative@, content_text@),
                start == chunk_models(old(self).chunks@),
                self.wf(),
                !self.full,
                self.total_bytes == old(self).total_bytes + length,
                chunk_models(self.chunks@) == all.take(start.len() + i),
                forall|j: int| 0 <= j < texts.len() ==> memory_text::is_chunk(#[trigger] texts[j]),
                vstd::utf8::valid_utf8(content@),
                content_text@ == vstd::utf8::decode_utf8(content@),
        {
            if self.chunks.len() >= MAX_MEMORY_CHUNKS {
                assert(chunk_models(self.chunks@).len() == start.len() + i);
                assert(all.len() == start.len() + texts.len());
                self.full = true;
                return ;
            }
            let ghost before = self.chunks@;
            let chunk = memory_chunk(path.as_str(), parts[i].clone());
            assert(texts[i as int] == parts@[i as int]@);
            assert(all[start.len() + i] == chunk@);
            self.chunks.push(chunk);
            assert(chunk_models(self.chunks@) =~= chunk_models(before).push(chunk@));
            assert(chunk_models(self.chunks@) =~= all.take(start.len() + i + 1));
        }
        assert(all.take((start.len() + parts@.len()) as int) =~= all);
    }
}

/// The chunks of a file, whose path is written with forward slashes.
pub open spec fn file_chunks(relative: Seq<char>, content: Seq<char>) -> Seq<ChunkModel> {
    memory_text::chunks_of(content).map_values(
        |s: Seq<char>| chunk_of(text::replaced(relative, '\\', seq!['/']), s),
    )
}

// ---------------------------------------------------------------------------------------
// What is read and what is kept
// ---------------------------------------------------------------------------------------

/// A file is a text where it has one of four extensions, in small or capital letters; one without
/// an extension is none.
pub proof fn law_texts_are_told_by_extension(name: &str, stem: Seq<char>, ext: Seq<char>, r: bool)
    requires
        call_ensures(is_memory_text_file, (name,), r),
        !ext.contains('.'),
    ensures
        stem.len() > 0 && name@ == stem.push('.') + ext ==> (r <==> text::lowered(ext) == "md"@
            || text::lowered(ext) == "markdown"@ || text::lowered(ext) == "txt"@ || text::lowered(
            ext,
        ) == "rst"@),
        name@ == ext || name@ == seq!['.'] + ext ==> !r,
{
    file_name::law_extension_follows_the_last_dot(stem, ext);
    if stem.push('.') + ext == seq!['.', '.'] {
        reveal_strlit("md");
        reveal_strlit("markdown");
        reveal_strlit("txt");
        reveal_strlit("rst");
        assert(seq!['.', '.'].len() == 2);
        assert(ext.len() == 0);
        assert(text::lowered(ext).len() == 0);
    }
}

/// What begins with a dot is left alone, and so is a symbolic link. Of the rest, directories are
/// searched, and files that are texts are taken.
pub proof fn law_hidden_entries_are_left_alone(
    name: &str,
    kind: EntryKind,
    text: bool,
    r: EntryAction,
)
    requires
        call_ensures(memory_entry_action, (name, kind), r),
        call_ensures(is_memory_text_file, (name,), text),
    ensures
        r == EntryAction::Descend <==> kind == EntryKind::Directory && !(name@.len() > 0 && name@[0]
            == '.'),
        r == EntryAction::Take <==> kind == EntryKind::File && text && !(name@.len() > 0 && name@[0]
            == '.'),
{
}

/// Directories are searched four levels deep.
pub proof fn law_search_is_four_levels_deep(depth: usize, r: bool)
    requires
        call_ensures(searches_depth, (depth,), r),
    ensures
        r <==> depth <= 4,
{
}

/// A file is read where it has no more than 512 KiB and all files together no more than 4 MiB, is
/// no symbolic link, and there is room for chunks.
pub proof fn law_files_are_read_within_limits(
    collector: MemoryCollector,
    symlink: bool,
    length: u64,
    r: bool,
)
    requires
        call_ensures(MemoryCollector::wants, (&collector, symlink, length), r),
    ensures
        r <==> !collector.full && !symlink && length <= 512 * 1024 && collector.total_bytes + length
            <= 4 * 1024 * 1024,
{
}

/// What has been collected is never more than 96 chunks of 4 MiB, and every chunk is that of its
/// text.
pub proof fn law_collection_is_bounded(collector: MemoryCollector, i: int)
    requires
        collector.wf(),
    ensures
        collector.chunks@.len() <= 96,
        collector.total_bytes <= 4 * 1024 * 1024,
        collector.full ==> collector.chunks@.len() == 96,
        0 <= i < collector.chunks@.len() ==> ({
            let chunk = collector.chunks@[i];
            &&& 0 < chunk.text@.len() <= 1400
            &&& text::strings(chunk.tokens@) == memory_text::terms_of(chunk.text@)
            &&& chunk.cache_key@ == hex(sha256_digest(vstd::utf8::encode_utf8(chunk.text@)))
        }),
{
}

/// A chunk has the path and the text that it is made of, the terms of that text, and the digest
/// of its bytes as its key.
pub proof fn law_chunk_is_made_of_its_text(path: &str, content: String, r: MemoryChunk)
    requires
        call_ensures(memory_chunk, (path, content), r),
    ensures
        r.path@ == path@,
        r.text@ == content@,
        text::strings(r.tokens@) == memory_text::terms_of(content@),
        r.cache_key@ == hex(sha256_digest(vstd::utf8::encode_utf8(content@))),
{
}

proof fn lemma_one_for_one(s: Seq<char>, from: char, to: char)
    ensures
        text::replaced(s, from, seq![to]).len() == s.len(),
        forall|i: int|
            0 <= i < s.len() ==> #[trigger] text::replaced(s, from, seq![to])[i] == (if s[i]
                == from {
                to
            } else {
                s[i]
            }),
    decreases s.len(),
{
    if s.len() > 0 {
        let front = s.drop_last();
        lemma_one_for_one(front, from, to);
        let before = text::replaced(front, from, seq![to]);
        let after = text::replaced(s, from, seq![to]);
        assert forall|i: int| 0 <= i < s.len() implies #[trigger] after[i] == (if s[i] == from {
            to
        } else {
            s[i]
        }) by {
            if i < front.len() {
                assert(after[i] == before[i]);
                assert(front[i] == s[i]);
            }
        }
    }
}

/// The chunks of a file are those of its text, in order, and each has the path of the file, with
/// a slash in place of every backslash.
pub proof fn law_chunks_have_the_path_of_their_file(relative: Seq<char>, content: Seq<char>, k: int)
    requires
        0 <= k < memory_text::chunks_of(content).len(),
    ensures
        file_chunks(relative, content).len() == memory_text::chunks_of(content).len(),
        file_chunks(relative, content)[k].text == memory_text::chunks_of(content)[k],
        file_chunks(relative, content)[k].tokens == memory_text::terms_of(
            memory_text::chunks_of(content)[k],
        ),
        file_chunks(relative, content)[k].path.len() == relative.len(),
        forall|i: int|
            0 <= i < relative.len() ==> #[trigger] file_chunks(relative, content)[k].path[i] == (
            if relative[i] == '\\' {
                '/'
            } else {
                relative[i]
            }),
{
    lemma_one_for_one(relative, '\\', '/');
    assert(file_chunks(relative, content)[k].path == text::replaced(relative, '\\', seq!['/']));
}

/// What is read of a chunk is what its fields hold, and of chunks what each holds.
pub proof fn law_chunks_are_read_by_their_fields(chunks: Seq<MemoryChunk>, i: int)
    requires
        0 <= i < chunks.len(),
    ensures
        chunk_models(chunks).len() == chunks.len(),
        chunk_models(chunks)[i].path == chunks[i].path@,
        chunk_models(chunks)[i].text == chunks[i].text@,
        chunk_models(chunks)[i].cache_key == chunks[i].cache_key@,
        chunk_models(chunks)[i].tokens.len() == chunks[i].tokens@.len(),
        forall|k: int|
            0 <= k < chunks[i].tokens@.len() ==> #[trigger] chunk_models(chunks)[i].tokens[k]
                == chunks[i].tokens@[k]@,
{
}

/// What a hexadecimal digit stands for, in small letters.
pub open spec fn is_hex_of(c: char, n: int) -> bool {
    if n < 10 {
        c as int == 48 + n
    } else {
        c as int == 87 + n
    }
}

/// Each byte is written in two hexadecimal digits, the higher one first, and the bytes stand in
/// their order.
pub proof fn law_bytes_are_written_in_two_digits(bytes: Seq<u8>)
    ensures
        hex(bytes).len() == 2 * bytes.len(),
        forall|i: int|
            #![trigger bytes[i]]
            0 <= i < bytes.len() ==> is_hex_of(hex(bytes)[2 * i], bytes[i] as int / 16)
                && is_hex_of(hex(bytes)[2 * i + 1], bytes[i] as int % 16),
    decreases bytes.len(),
{
    if bytes.len() > 0 {
        let front = bytes.drop_last();
        law_bytes_are_written_in_two_digits(front);
        let n = front.len() as int;
        assert forall|i: int| #![trigger bytes[i]] 0 <= i < bytes.len() implies is_hex_of(
            hex(bytes)[2 * i],
            bytes[i] as int / 16,
        ) && is_hex_of(hex(bytes)[2 * i + 1], bytes[i] as int % 16) by {
            if i < n {
                assert(front[i] == bytes[i]);
                assert(hex(bytes)[2 * i] == hex(front)[2 * i]);
                assert(hex(bytes)[2 * i + 1] == hex(front)[2 * i + 1]);
            } else {
                lemma_two_digits(bytes[i]);
                assert(hex(bytes)[2 * i] == json::hex_digit(bytes[i] as nat / 16));
                assert(hex(bytes)[2 * i + 1] == json::hex_digit(bytes[i] as nat % 16));
            }
        }
    }
}

proof fn lemma_two_digits(b: u8)
    ensures
        is_hex_of(json::hex_digit(b as nat / 16), b as int / 16),
        is_hex_of(json::hex_digit(b as nat % 16), b as int % 16),
{
}

/// The chunks of a file come behind those that are there, in their order, up to 96 in all; its
/// length counts for all files. What is no text in UTF-8 changes nothing.
pub proof fn law_chunks_of_a_file_come_behind(
    collector: &mut MemoryCollector,
    relative: &str,
    length: u64,
    content: Vec<u8>,
    k: int,
)
    requires
        call_ensures(MemoryCollector::add_file, (collector, relative, length, content), ()),
        old(collector).chunks@.len() <= 96,
    ensures
        !vstd::utf8::valid_utf8(content@) ==> *final(collector) == *old(collector),
        vstd::utf8::valid_utf8(content@) ==> ({
            let more = file_chunks(relative@, vstd::utf8::decode_utf8(content@));
            let sum = old(collector).chunks@.len() + more.len();
            &&& final(collector).total_bytes == old(collector).total_bytes + length
            &&& final(collector).chunks@.len() == (if sum <= 96 {
                sum
            } else {
                96
            })
            &&& final(collector).full <==> sum > 96
            &&& 0 <= k < old(collector).chunks@.len() ==> final(collector).chunks@[k]@ == old(
                collector,
            ).chunks@[k]@
            &&& forall|i: int|
                old(collector).chunks@.len() <= i < final(collector).chunks@.len() ==> (
                #[trigger] final(collector).chunks@[i])@ == more[i - old(collector).chunks@.len()]
        }),
{
    if vstd::utf8::valid_utf8(content@) {
        let before = chunk_models(old(collector).chunks@);
        let after = chunk_models(final(collector).chunks@);
        assert(before.len() == old(collector).chunks@.len());
        assert(after.len() == final(collector).chunks@.len());
        if 0 <= k < before.len() {
            assert(after[k] == final(collector).chunks@[k]@);
            assert(before[k] == old(collector).chunks@[k]@);
        }
        assert forall|i: int|
            old(collector).chunks@.len() <= i < final(collector).chunks@.len() implies (
        #[trigger] final(collector).chunks@[i])@ == file_chunks(
            relative@,
            vstd::utf8::decode_utf8(content@),
        )[i - old(collector).chunks@.len()] by {
            assert(after[i] == final(collector).chunks@[i]@);
        }
    }
}

} // verus!
