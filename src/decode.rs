//! Decoding of the raw battle buffer, and the roster update that it yields.
use vstd::prelude::*;
use crate::roster::{occupied, parse_roster, roster_of, valid_roster, Roster};

verus! {

/// The text that the GB18030 decoder makes of `b`, each malformed sequence
/// replaced by a stand-in character.
pub uninterp spec fn gb18030_text(b: Seq<u8>) -> Seq<char>;

/// `b` read byte for byte as ASCII characters.
pub open spec fn ascii_text(b: Seq<u8>) -> Seq<char> {
    Seq::new(b.len(), |i: int| b[i] as char)
}

/// Relies on `encoding_rs::Encoding::decode_without_bom_handling` for
/// `encoding_rs::GB18030`: a lossy decode whose result depends on the bytes
/// alone, which hands back input that is all ASCII as it stands.
#[verifier::external_body]
fn gb18030_lossy(bytes: &[u8]) -> (r: String)
    ensures
        r@ == gb18030_text(bytes@),
        (forall|i: int| 0 <= i < bytes@.len() ==> bytes@[i] < 0x80) ==> r@ == ascii_text(bytes@),
{
    encoding_rs::GB18030.decode_without_bom_handling(bytes).0.into_owned()
}

/// Decodes raw GB18030 bytes into text, never failing: malformed sequences
/// become a stand-in character, and no bytes give empty text.
pub fn decode_text(bytes: &[u8]) -> (r: String)
    ensures
        r@ == gb18030_text(bytes@),
        (forall|i: int| 0 <= i < bytes@.len() ==> bytes@[i] < 0x80) ==> r@ == ascii_text(bytes@),
        bytes@.len() == 0 ==> r@.len() == 0,
{
    let r = gb18030_lossy(bytes);
    assert(bytes@.len() == 0 ==> ascii_text(bytes@) =~= Seq::<char>::empty());
    r
}

/// What one poll's decoded text gives to publish: its roster, where the text
/// is not empty and the roster has a seat taken.
pub open spec fn update_of(text: Seq<char>) -> Option<Seq<Option<crate::record::CharacterView>>> {
    if text.len() > 0 && occupied(roster_of(text)) > 0 {
        Some(roster_of(text))
    } else {
        None
    }
}

/// The roster to publish for one poll's decoded text, or `None` where there is
/// nothing to publish this tick.
pub fn roster_update(text: &str) -> (r: Option<Roster>)
    ensures
        r matches Some(ro) ==> update_of(text@) == Some(ro@) && valid_roster(ro@),
        r is None ==> update_of(text@) is None,
{
    if text.unicode_len() == 0 {
        return None;
    }
    let roster = parse_roster(text);
    if roster.is_empty() {
        None
    } else {
        Some(roster)
    }
}

/// The roster to publish for one poll's raw bytes: they are decoded, then
/// parsed.
pub fn roster_from_bytes(bytes: &[u8]) -> (r: Option<Roster>)
    ensures
        r matches Some(ro) ==> update_of(gb18030_text(bytes@)) == Some(ro@) && valid_roster(ro@),
        r is None ==> update_of(gb18030_text(bytes@)) is None,
{
    let text = decode_text(bytes);
    roster_update(text.as_str())
}

} // verus!
