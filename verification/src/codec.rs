use vstd::bytes::*;
use vstd::prelude::*;
use vstd::slice::*;

verus! {

/// A note as the library works with it: a fixed-size author key, a
/// caller-chosen numeric id, and a variable-length byte payload.
pub struct Note {
    pub author: [u8; 32],
    pub id: u64,
    pub content: Vec<u8>,
}

impl Note {
    /// The content length must fit the 4-byte length prefix of the
    /// persisted layout.
    pub open spec fn wf(self) -> bool {
        self.content@.len() <= u32::MAX
    }
}

/// Fixed 8-byte discriminator stamped at the start of every stored note:
/// a type tag that keeps a note from being mistaken for any other kind of
/// record sharing the same storage space. Never altered after creation.
pub open spec fn spec_discriminator() -> Seq<u8> {
    seq![110u8, 111u8, 116u8, 101u8, 114u8, 101u8, 99u8, 100u8]
}

/// The discriminator as a byte vector (ASCII `noterecd`).
pub fn discriminator() -> (r: Vec<u8>)
    ensures
        r@ == spec_discriminator(),
{
    let mut v: Vec<u8> = Vec::new();
    v.push(110);
    v.push(111);
    v.push(116);
    v.push(101);
    v.push(114);
    v.push(101);
    v.push(99);
    v.push(100);
    proof {
        assert(v@ =~= spec_discriminator());
    }
    v
}

/// Storage bytes taken by a note whose content is `content_len` bytes long:
/// an 8-byte discriminator, the 32-byte author key, the 8-byte id and a
/// 4-byte length prefix come before the content itself.
pub open spec fn note_space(content_len: nat) -> nat {
    52 + content_len
}

/// Exact storage size required for a note whose content is `content_len`
/// bytes long.
pub fn required_space(content_len: u32) -> (r: u64)
    ensures
        r == note_space(content_len as nat),
{
    52u64 + content_len as u64
}

/// The persisted layout of a note, bit-exact:
/// `[8-byte discriminator][32-byte author][8-byte id, little-endian]
///  [4-byte length prefix, little-endian][content bytes]`.
pub open spec fn spec_encode(author: Seq<u8>, id: u64, content: Seq<u8>) -> Seq<u8>
    recommends
        author.len() == 32,
        content.len() <= u32::MAX,
{
    spec_discriminator() + author + spec_u64_to_le_bytes(id) + spec_u32_to_le_bytes(
        content.len() as u32,
    ) + content
}

/// Whether a byte sequence is the persisted form of some note: long enough
/// to hold the fixed header, tagged with the discriminator, and carrying a
/// length prefix that accounts for every remaining byte.
pub open spec fn is_valid_encoding(d: Seq<u8>) -> bool {
    &&& d.len() >= 52
    &&& d.len() - 52 <= u32::MAX
    &&& d.subrange(0, 8) == spec_discriminator()
    &&& spec_u32_from_le_bytes(d.subrange(48, 52)) == d.len() - 52
}

/// The author key stored in an encoded note.
pub open spec fn enc_author(d: Seq<u8>) -> Seq<u8>
    recommends
        d.len() >= 52,
{
    d.subrange(8, 40)
}

/// The id stored in an encoded note.
pub open spec fn enc_id(d: Seq<u8>) -> u64
    recommends
        d.len() >= 52,
{
    spec_u64_from_le_bytes(d.subrange(40, 48))
}

/// The content bytes stored in an encoded note.
pub open spec fn enc_content(d: Seq<u8>) -> Seq<u8>
    recommends
        d.len() >= 52,
{
    d.subrange(52, d.len() as int)
}

/// Encoding a note yields a valid persisted record of exactly
/// `note_space` bytes, and each stored field reads back unchanged.
pub proof fn lemma_encode_extractors(author: Seq<u8>, id: u64, content: Seq<u8>)
    requires
        author.len() == 32,
        content.len() <= u32::MAX,
    ensures
        spec_encode(author, id, content).len() == note_space(content.len()),
        is_valid_encoding(spec_encode(author, id, content)),
        enc_author(spec_encode(author, id, content)) == author,
        enc_id(spec_encode(author, id, content)) == id,
        enc_content(spec_encode(author, id, content)) == content,
{
    lemma_auto_spec_u64_to_from_le_bytes();
    lemma_auto_spec_u32_to_from_le_bytes();
    let d = spec_encode(author, id, content);
    assert(d.subrange(0, 8) =~= spec_discriminator());
    assert(d.subrange(8, 40) =~= author);
    assert(d.subrange(40, 48) =~= spec_u64_to_le_bytes(id));
    assert(d.subrange(48, 52) =~= spec_u32_to_le_bytes(content.len() as u32));
    assert(d.subrange(52, d.len() as int) =~= content);
}

/// A valid encoding is exactly the encoding of the fields read out of it:
/// decoding loses nothing and re-encoding reproduces the bytes.
pub proof fn lemma_valid_encoding_reconstruct(d: Seq<u8>)
    requires
        is_valid_encoding(d),
    ensures
        enc_author(d).len() == 32,
        enc_content(d).len() <= u32::MAX,
        d == spec_encode(enc_author(d), enc_id(d), enc_content(d)),
{
    lemma_auto_spec_u64_to_from_le_bytes();
    lemma_auto_spec_u32_to_from_le_bytes();
    let e = spec_encode(enc_author(d), enc_id(d), enc_content(d));
    assert(spec_u64_to_le_bytes(enc_id(d)) == d.subrange(40, 48));
    assert(enc_content(d).len() == d.len() - 52);
    assert(spec_u32_to_le_bytes(enc_content(d).len() as u32) == d.subrange(48, 52));
    assert(d =~= e);
}

/// Serialize a note into its persisted layout.
pub fn encode_note(note: &Note) -> (r: Vec<u8>)
    requires
        note.wf(),
    ensures
        r@ == spec_encode(note.author@, note.id, note.content@),
        r@.len() == note_space(note.content@.len()),
{
    proof {
        lemma_encode_extractors(note.author@, note.id, note.content@);
    }
    let mut r = discriminator();
    let mut author_bytes = slice_to_vec(note.author.as_slice());
    r.append(&mut author_bytes);
    let mut id_bytes = u64_to_le_bytes(note.id);
    r.append(&mut id_bytes);
    let mut len_bytes = u32_to_le_bytes(note.content.len() as u32);
    r.append(&mut len_bytes);
    let mut content_bytes = slice_to_vec(note.content.as_slice());
    r.append(&mut content_bytes);
    proof {
        assert(r@ =~= spec_encode(note.author@, note.id, note.content@));
    }
    r
}

/// Parse a persisted record back into a note. Returns `None` exactly when
/// the bytes are not a valid encoding.
pub fn decode_note(data: &Vec<u8>) -> (r: Option<Note>)
    ensures
        match r {
            Some(n) => {
                &&& is_valid_encoding(data@)
                &&& n.wf()
                &&& n.author@ == enc_author(data@)
                &&& n.id == enc_id(data@)
                &&& n.content@ == enc_content(data@)
                &&& data@ == spec_encode(n.author@, n.id, n.content@)
            },
            None => !is_valid_encoding(data@),
        },
{
    if data.len() < 52 {
        return None;
    }
    let disc = discriminator();
    let mut i: usize = 0;
    while i < 8
        invariant
            i <= 8,
            data@.len() >= 52,
            disc@ == spec_discriminator(),
            forall|j: int| 0 <= j < i ==> data@[j] == spec_discriminator()[j],
        decreases 8 - i,
    {
        if data[i] != disc[i] {
            proof {
                assert(data@.subrange(0, 8)[i as int] != spec_discriminator()[i as int]);
            }
            return None;
        }
        i += 1;
    }
    proof {
        assert(data@.subrange(0, 8) =~= spec_discriminator());
    }
    let len_field = u32_from_le_bytes(slice_subrange(data.as_slice(), 48, 52));
    if (len_field as usize) != data.len() - 52 {
        return None;
    }
    let author_slice = slice_subrange(data.as_slice(), 8, 40);
    let mut author: [u8; 32] = [0u8; 32];
    let mut k: usize = 0;
    while k < 32
        invariant
            k <= 32,
            author_slice@.len() == 32,
            author_slice@ == enc_author(data@),
            forall|j: int| 0 <= j < k ==> author@[j] == enc_author(data@)[j],
        decreases 32 - k,
    {
        author[k] = author_slice[k];
        k += 1;
    }
    proof {
        assert(author@ =~= enc_author(data@));
    }
    let id = u64_from_le_bytes(slice_subrange(data.as_slice(), 40, 48));
    let content = slice_to_vec(slice_subrange(data.as_slice(), 52, data.len()));
    let note = Note { author, id, content };
    proof {
        lemma_valid_encoding_reconstruct(data@);
    }
    Some(note)
}

} // verus!
