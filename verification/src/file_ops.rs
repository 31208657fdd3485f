//! File-level rules: which directory entries are model files, how much free
//! space a copy needs, and the checksum of a file's bytes.

use vstd::prelude::*;
use vstd::string::*;
use sha2::Digest;
use crate::order::{is_listed, is_sorted_order, key_views, listed, sorted_order, SortKey};
use crate::text::{chars_of, lowercase_of, same_text, text_lt, to_lowercase};

verus! {

/// One entry of a directory as the caller listed it.
pub struct ListedEntry {
    /// The entry's base name.
    pub name: String,
    /// Whether the entry is a regular file.
    pub is_file: bool,
}

/// The position of the last `.` before `upto`, or `-1` when there is none.
pub open spec fn last_dot(name: Seq<char>, upto: int) -> int
    decreases upto,
{
    if upto <= 0 || upto > name.len() {
        -1
    } else if name[upto - 1] == '.' {
        upto - 1
    } else {
        last_dot(name, upto - 1)
    }
}

/// The extension of a file name: what follows its last `.`, unless the name
/// has no `.` or only the one it starts with.
pub open spec fn extension_of(name: Seq<char>) -> Option<Seq<char>> {
    let dot = last_dot(name, name.len() as int);
    if dot <= 0 {
        None
    } else {
        Some(name.subrange(dot + 1, name.len() as int))
    }
}

/// A hidden file: its name starts with `.`.
pub open spec fn is_hidden(name: Seq<char>) -> bool {
    name.len() > 0 && name[0] == '.'
}

/// The texts of a list of extensions.
pub open spec fn extension_texts(extensions: Seq<&str>) -> Seq<Seq<char>> {
    extensions.map_values(|e: &str| e@)
}

/// Whether a directory entry is a model file under the given whitelist: a
/// regular file that is not hidden and whose extension, lowercased, is listed.
pub open spec fn is_model_file(name: Seq<char>, is_file: bool, extensions: Seq<Seq<char>>) -> bool {
    &&& is_file
    &&& !is_hidden(name)
    &&& extension_of(name) matches Some(extension)
    &&& extensions.contains(lowercase_of(extension))
}

/// Some entry with this name is a model file.
pub open spec fn names_model_file(
    entries: Seq<ListedEntry>,
    extensions: Seq<Seq<char>>,
    name: Seq<char>,
) -> bool {
    exists|k: int|
        0 <= k < entries.len() && (#[trigger] entries[k]).name@ == name && is_model_file(
            entries[k].name@,
            entries[k].is_file,
            extensions,
        )
}

/// `names` is what a scan of `entries` returns: the names of the model files
/// among them, each once, in strictly increasing code-point order.
pub open spec fn is_scan_of(
    entries: Seq<ListedEntry>,
    extensions: Seq<Seq<char>>,
    names: Seq<Seq<char>>,
) -> bool {
    &&& forall|i: int, j: int| 0 <= i < j < names.len() ==> text_lt(#[trigger] names[i], #[trigger] names[j])
    &&& forall|i: int|
        0 <= i < names.len() ==> names_model_file(entries, extensions, #[trigger] names[i])
    &&& forall|k: int|
        0 <= k < entries.len() && is_model_file(
            (#[trigger] entries[k]).name@,
            entries[k].is_file,
            extensions,
        ) ==> names.contains(entries[k].name@)
}

/// The extension of a file name, if it has one.
pub fn file_extension(name: &str) -> (extension: Option<String>)
    ensures
        extension is Some == extension_of(name@) is Some,
        extension matches Some(e) ==> e@ == extension_of(name@)->0,
{
    let chars: Vec<char> = chars_of(name);
    let mut upto: usize = chars.len();
    while upto > 0 && chars[upto - 1] != '.'
        invariant
            upto <= chars.len(),
            chars@ == name@,
            last_dot(name@, name@.len() as int) == last_dot(name@, upto as int),
        decreases upto,
    {
        upto -= 1;
    }
    if upto <= 1 {
        None
    } else {
        Some(name.substring_char(upto, chars.len()).to_owned())
    }
}

/// Whether an already lowercased extension is on the whitelist.
pub fn extension_listed(lower: &str, extensions: &[&str]) -> (listed: bool)
    ensures
        listed == extension_texts(extensions@).contains(lower@),
{
    let mut at: usize = 0;
    while at < extensions.len()
        invariant
            at <= extensions.len(),
            forall|i: int| 0 <= i < at ==> #[trigger] extension_texts(extensions@)[i] != lower@,
        decreases extensions.len() - at,
    {
        if same_text(extensions[at], lower) {
            assert(extension_texts(extensions@)[at as int] == lower@);
            return true;
        }
        at += 1;
    }
    false
}

/// Whether a regular file of the given name is a model file under the
/// whitelist.
pub fn accepts_file_name(name: &str, extensions: &[&str]) -> (accepted: bool)
    ensures
        accepted == is_model_file(name@, true, extension_texts(extensions@)),
{
    let chars: Vec<char> = chars_of(name);
    if chars.len() > 0 && chars[0] == '.' {
        return false;
    }
    match file_extension(name) {
        Some(extension) => {
            let lower: String = to_lowercase(extension.as_str());
            extension_listed(lower.as_str(), extensions)
        },
        None => false,
    }
}

/// Whether a directory entry is a model file under the whitelist.
pub fn accepts_entry(entry: &ListedEntry, extensions: &[&str]) -> (accepted: bool)
    ensures
        accepted == is_model_file(entry.name@, entry.is_file, extension_texts(extensions@)),
{
    entry.is_file && accepts_file_name(entry.name.as_str(), extensions)
}

/// Selects the model files among the entries of a directory and returns their
/// names in code-point order, each once. Entries that are not regular files,
/// hidden files and files whose extension is not on the whitelist are left
/// out; extensions are compared without regard to case. A directory that does
/// not exist is scanned as one without entries and gives an empty result.
#[verifier::loop_isolation(false)]
pub fn scan_directory(entries: &Vec<ListedEntry>, extensions: &[&str]) -> (names: Vec<String>)
    ensures
        is_scan_of(entries@, extension_texts(extensions@), names.deep_view()),
{
    let ghost wanted = extension_texts(extensions@);
    let mut picked: Vec<usize> = Vec::new();
    let mut keys: Vec<SortKey> = Vec::new();
    let mut at: usize = 0;
    while at < entries.len()
        invariant
            at <= entries.len(),
            wanted == extension_texts(extensions@),
            picked.len() == keys.len(),
            forall|p: int|
                0 <= p < picked.len() ==> (#[trigger] picked[p]) < at && is_model_file(
                    entries[picked[p] as int].name@,
                    entries[picked[p] as int].is_file,
                    wanted,
                ) && key_views(keys@)[p] == (0int, entries[picked[p] as int].name@),
            forall|k: int|
                0 <= k < at && is_model_file(
                    (#[trigger] entries[k]).name@,
                    entries[k].is_file,
                    wanted,
                ) ==> exists|p: int| 0 <= p < picked.len() && #[trigger] picked[p] == k,
        decreases entries.len() - at,
    {
        if accepts_entry(&entries[at], extensions) {
            let ghost old_picked = picked@;
            let ghost old_keys = keys@;
            picked.push(at);
            keys.push(SortKey { rank: 0, name: chars_of(entries[at].name.as_str()) });
            proof {
                assert(key_views(keys@)[old_keys.len() as int] == (0int, entries[at as int].name@));
                assert forall|p: int| 0 <= p < picked.len() implies (#[trigger] picked[p]) < at + 1
                    && is_model_file(
                    entries[picked[p] as int].name@,
                    entries[picked[p] as int].is_file,
                    wanted,
                ) && key_views(keys@)[p] == (0int, entries[picked[p] as int].name@) by {
                    if p < old_picked.len() {
                        assert(picked[p] == old_picked[p]);
                        assert(key_views(keys@)[p] == key_views(old_keys)[p]);
                    }
                }
                assert forall|k: int|
                    0 <= k < at + 1 && is_model_file(
                        (#[trigger] entries[k]).name@,
                        entries[k].is_file,
                        wanted,
                    ) implies exists|p: int| 0 <= p < picked.len() && #[trigger] picked[p] == k by {
                    if k < at {
                        let p0 = choose|p: int| 0 <= p < old_picked.len() && #[trigger] old_picked[p] == k;
                        assert(picked[p0] == k);
                    } else {
                        assert(picked[old_picked.len() as int] == k);
                    }
                }
            }
        }
        at += 1;
    }
    let order: Vec<usize> = sorted_order(&keys);
    let ghost views = key_views(keys@);
    let mut names: Vec<String> = Vec::new();
    let mut j: usize = 0;
    while j < order.len()
        invariant
            j <= order.len(),
            views == key_views(keys@),
            picked.len() == keys.len(),
            is_sorted_order(views, order@),
            forall|p: int| 0 <= p < picked.len() ==> (#[trigger] picked[p]) < entries.len(),
            names.len() == j,
            forall|i: int|
                0 <= i < j ==> #[trigger] names.deep_view()[i] == listed(views, order@, i).1,
        decreases order.len() - j,
    {
        let ghost before = names.deep_view();
        let slot: usize = order[j];
        let source: usize = picked[slot];
        let name: String = entries[source].name.clone();
        names.push(name);
        proof {
            assert(views[slot as int] == (0int, entries[source as int].name@));
            assert forall|i: int| 0 <= i < j + 1 implies #[trigger] names.deep_view()[i] == listed(
                views,
                order@,
                i,
            ).1 by {
                if i < j {
                    assert(names.deep_view()[i] == before[i]);
                }
            }
        }
        j += 1;
    }
    proof {
        let result = names.deep_view();
        assert forall|a: int, b: int| 0 <= a < b < result.len() implies text_lt(
            #[trigger] result[a],
            #[trigger] result[b],
        ) by {
            assert(crate::order::key_lt(listed(views, order@, a), listed(views, order@, b)));
            assert(picked[order@[a] as int] < entries.len());
            assert(picked[order@[b] as int] < entries.len());
            assert(views[order@[a] as int].0 == 0);
            assert(views[order@[b] as int].0 == 0);
        }
        assert forall|i: int| 0 <= i < result.len() implies names_model_file(
            entries@,
            wanted,
            #[trigger] result[i],
        ) by {
            let k = picked[order[i] as int] as int;
            assert(entries[k].name@ == result[i]);
        }
        assert forall|k: int|
            0 <= k < entries.len() && is_model_file(
                (#[trigger] entries[k]).name@,
                entries[k].is_file,
                wanted,
            ) implies result.contains(entries[k].name@) by {
            let p = choose|p: int| 0 <= p < picked.len() && #[trigger] picked[p] == k;
            assert(is_listed(views, order@, p));
            let i = choose|i: int| 0 <= i < order.len() && #[trigger] listed(views, order@, i) == views[p];
            assert(result[i] == entries[k].name@);
        }
    }
    names
}

/// The extensions that files of a category can have. An unknown
/// category has none.
pub open spec fn model_extensions(category: Seq<char>) -> Seq<Seq<char>> {
    if category == "model"@ {
        seq!["ckpt"@, "safetensors"@, "pt"@, "pth"@]
    } else if category == "lora"@ || category == "controlnet"@ {
        seq!["safetensors"@, "pt"@, "pth"@]
    } else {
        Seq::empty()
    }
}

/// The extension whitelist of a category: "model", "lora" or
/// "controlnet".
pub fn get_model_extensions(model_type: &str) -> (extensions: Vec<&'static str>)
    ensures
        extension_texts(extensions@) == model_extensions(model_type@),
{
    let mut extensions: Vec<&'static str> = Vec::new();
    if same_text(model_type, "model") {
        extensions.push("ckpt");
        extensions.push("safetensors");
        extensions.push("pt");
        extensions.push("pth");
    } else if same_text(model_type, "lora") || same_text(model_type, "controlnet") {
        extensions.push("safetensors");
        extensions.push("pt");
        extensions.push("pth");
    }
    assert(extension_texts(extensions@) =~= model_extensions(model_type@));
    extensions
}

/// What the platform reports of the volume that holds a path.
#[derive(Clone, Copy, Debug)]
pub struct VolumeStat {
    /// The number of blocks free to the user.
    pub free_blocks: u64,
    /// The size of a block in bytes.
    pub block_size: u64,
}

/// The free space of a volume in bytes: its free blocks times the size of a
/// block, held at the largest value where the product would pass it; and the
/// largest value when the platform cannot say, so that nothing is refused for
/// lack of an answer.
pub open spec fn available_bytes(reported: Option<VolumeStat>) -> u64 {
    match reported {
        Some(volume) => if volume.free_blocks * volume.block_size > u64::MAX {
            u64::MAX
        } else {
            (volume.free_blocks * volume.block_size) as u64
        },
        None => u64::MAX,
    }
}

/// The free space to reckon with, in bytes, from what the platform reported
/// of the volume.
pub fn get_available_space(reported: Option<VolumeStat>) -> (available: u64)
    ensures
        available == available_bytes(reported),
{
    match reported {
        Some(volume) => match volume.free_blocks.checked_mul(volume.block_size) {
            Some(bytes) => bytes,
            None => u64::MAX,
        },
        None => u64::MAX,
    }
}

/// The bytes that must be free before `required` bytes are copied: the size
/// itself and a tenth of it as safety margin.
pub open spec fn required_with_margin(required: int) -> int {
    required + required / 10
}

/// Whether `available` free bytes exceed what a copy of `required` bytes
/// needs with its margin.
pub open spec fn space_suffices(available: int, required: int) -> bool {
    available > required_with_margin(required)
}

/// The admission rule says that the free space must exceed 1.1 times the
/// size to copy.
pub proof fn lemma_margin_is_a_tenth(available: int, required: int)
    requires
        0 <= required,
    ensures
        space_suffices(available, required) <==> 10 * available > 11 * required,
{
}

/// Whether a copy of `required_bytes` is admitted when `available` bytes are
/// free at the destination.
pub fn has_enough_space(available: u64, required_bytes: u64) -> (enough: bool)
    ensures
        enough == space_suffices(available as int, required_bytes as int),
{
    let margin: u64 = required_bytes / 10;
    match required_bytes.checked_add(margin) {
        Some(needed) => available > needed,
        None => false,
    }
}

/// The running state of a checksum computation: a `Sha256` hasher of the
/// sha2 crate.
///
/// The hasher is opaque to the verifier. Contracts speak of it only through
/// [`absorbed`], the bytes it has been fed so far.
#[verifier::external_body]
pub struct ChecksumState {
    hasher: sha2::Sha256,
}

/// The bytes that were passed to the hasher of a checksum state since it
/// was made, in order.
pub uninterp spec fn absorbed(state: ChecksumState) -> Seq<u8>;

/// The SHA-256 digest of a byte string.
pub uninterp spec fn sha256_of(data: Seq<u8>) -> Seq<u8>;

/// The lowercase hexadecimal digit of a value below 16.
pub open spec fn hex_digit(nibble: int) -> char {
    seq!['0', '1', '2', '3', '4', '5', '6', '7', '8', '9', 'a', 'b', 'c', 'd', 'e', 'f'][nibble]
}

/// The lowercase hexadecimal text of a byte string: two digits per byte, the
/// high half first.
pub open spec fn hex_lower(data: Seq<u8>) -> Seq<char> {
    Seq::new(
        2 * data.len(),
        |i: int|
            if i % 2 == 0 {
                hex_digit(data[i / 2] as int / 16)
            } else {
                hex_digit(data[i / 2] as int % 16)
            },
    )
}

/// Calls `Sha256::new` of the sha2 crate. Trusted: the new hasher has been
/// fed nothing.
#[verifier::external_body]
fn hasher_new() -> (state: ChecksumState)
    ensures
        absorbed(state) == Seq::<u8>::empty(),
{
    ChecksumState { hasher: sha2::Sha256::new() }
}

/// Calls `Digest::update` of the sha2 crate. Trusted: the bytes are appended
/// to what the hasher has been fed.
#[verifier::external_body]
fn hasher_update(state: &mut ChecksumState, data: &[u8])
    ensures
        absorbed(*final(state)) == absorbed(*old(state)) + data@,
{
    state.hasher.update(data)
}

/// Calls `Digest::finalize` of the sha2 crate. Trusted: the result is the
/// SHA-256 digest of all the bytes that the hasher was fed.
#[verifier::external_body]
fn hasher_finalize(state: ChecksumState) -> (digest: Vec<u8>)
    ensures
        digest@ == sha256_of(absorbed(state)),
{
    state.hasher.finalize().to_vec()
}

/// Calls `hex::encode`. Trusted: the result holds two lowercase hexadecimal
/// digits for each byte, in order.
#[verifier::external_body]
fn hex_encode(data: &[u8]) -> (text: String)
    ensures
        text@ == hex_lower(data@),
{
    hex::encode(data)
}

/// A probe of a file's content: computes the checksum and the size of a
/// file that is read piece by piece.
pub struct FileProbe {
    state: ChecksumState,
    size: u64,
}

/// A length in bytes as a probe reports it; lengths beyond the range of the
/// result are reported as its largest value.
pub open spec fn reported_size(length: nat) -> u64 {
    if length > u64::MAX {
        u64::MAX
    } else {
        length as u64
    }
}

impl FileProbe {
    /// The bytes that the probe has been fed, in order.
    pub closed spec fn content(&self) -> Seq<u8> {
        absorbed(self.state)
    }

    /// The invariant of the probe: it has counted the bytes it was fed.
    pub closed spec fn wf(&self) -> bool {
        self.size == reported_size(absorbed(self.state).len())
    }

    /// A probe that has been fed nothing.
    pub fn new() -> (probe: FileProbe)
        ensures
            probe.wf(),
            probe.content() == Seq::<u8>::empty(),
    {
        FileProbe { state: hasher_new(), size: 0 }
    }

    /// Feeds the next piece of the file.
    pub fn feed(&mut self, chunk: &[u8])
        requires
            old(self).wf(),
        ensures
            final(self).wf(),
            final(self).content() == old(self).content() + chunk@,
    {
        let added: u64 = chunk.len() as u64;
        self.size = match self.size.checked_add(added) {
            Some(total) => total,
            None => u64::MAX,
        };
        hasher_update(&mut self.state, chunk);
        assert((old(self).content() + chunk@).len() == old(self).content().len() + chunk@.len());
    }

    /// Ends the probe: the checksum of all the bytes fed, as lowercase
    /// hexadecimal text, and their number.
    pub fn finish(self) -> (result: (String, u64))
        requires
            self.wf(),
        ensures
            result.0@ == hex_lower(sha256_of(self.content())),
            result.1 == reported_size(self.content().len()),
    {
        let size: u64 = self.size;
        let digest: Vec<u8> = hasher_finalize(self.state);
        (hex_encode(digest.as_slice()), size)
    }
}

/// The checksum of a file's content: its SHA-256 digest as lowercase
/// hexadecimal text.
pub fn calculate_checksum(content: &[u8]) -> (checksum: String)
    ensures
        checksum@ == hex_lower(sha256_of(content@)),
{
    let mut probe: FileProbe = FileProbe::new();
    probe.feed(content);
    assert(Seq::<u8>::empty() + content@ =~= content@);
    probe.finish().0
}

} // verus!
