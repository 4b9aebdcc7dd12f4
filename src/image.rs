use base64::Engine;
use vstd::prelude::*;
use vstd::string::*;

use crate::records::{Card, CardView, FlatCardRecord, FlatRecordView, ImageRef};

verus! {

/// `p` with every backslash turned into a forward slash.
pub open spec fn slash_normalized(p: Seq<char>) -> Seq<char> {
    p.map_values(|c: char| if c == '\\' { '/' } else { c })
}

/// Absolute location of the image stored at relative path `rel` under `root`.
pub open spec fn resolved_location(root: Seq<char>, rel: Seq<char>) -> Seq<char> {
    root + seq!['/'] + slash_normalized(rel)
}

/// A card shows alternate art when it has an image whose identifier is not
/// the card's own id; without an image it does not.
pub open spec fn alt_art(id: i64, image: Option<ImageRef>) -> bool {
    match image {
        Some(img) => img.image_id != id,
        None => false,
    }
}

/// Standard base64 text (RFC 4648 alphabet, with padding) of a byte string.
pub uninterp spec fn base64_standard(b: Seq<u8>) -> Seq<char>;

/// Largest image, in bytes, that is encoded; a larger file counts as unreadable.
pub const MAX_IMAGE_BYTES: usize = usize::MAX / 2;

/// Relies on `str::replace` with pattern `'\\'` and replacement `"/"`: every
/// backslash becomes a forward slash and nothing else changes.
#[verifier::external_body]
fn replace_backslashes(p: &str) -> (r: String)
    ensures
        r@ == slash_normalized(p@),
{
    p.replace('\\', "/")
}

/// Relies on `base64::Engine::encode` of the `STANDARD` engine: the text
/// depends on the bytes alone and holds four characters for each started
/// group of three bytes. The output length is computed with checked
/// arithmetic that panics on overflow, hence the bound.
#[verifier::external_body]
fn encode_base64(b: &Vec<u8>) -> (r: String)
    requires
        b@.len() <= MAX_IMAGE_BYTES,
    ensures
        r@ == base64_standard(b@),
        r@.len() == 4 * ((b@.len() + 2) / 3),
{
    base64::engine::general_purpose::STANDARD.encode(b)
}

/// Brings a stored relative image path to the forward-slash convention.
pub fn normalize_image_path(p: &str) -> (r: String)
    ensures
        r@ == slash_normalized(p@),
{
    replace_backslashes(p)
}

/// Resolves a stored relative image path (either slash convention) against
/// the image root directory.
pub fn image_location(root: &str, rel: &str) -> (r: String)
    ensures
        r@ == resolved_location(root@, rel@),
{
    let mut s = root.to_owned();
    s.append("/");
    let n = replace_backslashes(rel);
    s.append(n.as_str());
    proof {
        reveal_strlit("/");
    }
    assert(s@ =~= resolved_location(root@, rel@));
    s
}

/// Decides the alternate-art flag of card `id` with canonical image `image`.
pub fn has_alt_art(id: i64, image: &Option<ImageRef>) -> (r: bool)
    ensures
        r == alt_art(id, *image),
{
    match image {
        Some(img) => img.image_id != id,
        None => false,
    }
}

/// Image payload made from the outcome of reading an image file: absent when
/// the read failed or the file is too large to encode, else its base64 text.
pub open spec fn payload_of(read: Option<Seq<u8>>) -> Option<Seq<char>> {
    match read {
        Some(b) => if b.len() <= MAX_IMAGE_BYTES {
            Some(base64_standard(b))
        } else {
            None
        },
        None => None,
    }
}

pub open spec fn read_view(read: Option<Vec<u8>>) -> Option<Seq<u8>> {
    match read {
        Some(b) => Some(b@),
        None => None,
    }
}

/// Encodes the bytes of an image file; a failed read yields no image.
pub fn image_payload(read: Option<Vec<u8>>) -> (r: Option<String>)
    ensures
        r is Some <==> payload_of(read_view(read)) is Some,
        r is Some ==> r->0@ == payload_of(read_view(read))->0,
{
    match read {
        Some(b) => if b.len() <= MAX_IMAGE_BYTES {
            Some(encode_base64(&b))
        } else {
            None
        },
        None => None,
    }
}

impl Card {
    /// Where this card's image file lies under `root`, if it has an image.
    pub fn image_location(&self, root: &str) -> (r: Option<String>)
        ensures
            r is Some <==> self.image_path is Some,
            r is Some ==> r->0@ == resolved_location(root@, self.image_path->0@),
    {
        match &self.image_path {
            Some(p) => Some(image_location(root, p.as_str())),
            None => None,
        }
    }

    /// Stores the image payload made from the outcome of reading its file.
    pub fn attach_image(&mut self, read: Option<Vec<u8>>)
        ensures
            final(self)@ == (CardView { img_base64: payload_of(read_view(read)), ..old(self)@ }),
    {
        self.img_base64 = image_payload(read);
    }
}

impl FlatCardRecord {
    /// Where this record's image file lies under `root`, if it has an image.
    pub fn image_location(&self, root: &str) -> (r: Option<String>)
        ensures
            r is Some <==> self.image_path is Some,
            r is Some ==> r->0@ == resolved_location(root@, self.image_path->0@),
    {
        match &self.image_path {
            Some(p) => Some(image_location(root, p.as_str())),
            None => None,
        }
    }

    /// Stores the image payload made from the outcome of reading its file.
    pub fn attach_image(&mut self, read: Option<Vec<u8>>)
        ensures
            final(self)@ == (FlatRecordView { img_base64: payload_of(read_view(read)), ..old(self)@ }),
    {
        self.img_base64 = image_payload(read);
    }
}

} // verus!
