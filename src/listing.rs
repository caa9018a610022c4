//! Listing the decoded names of entries, and probing which character sets
//! decode a name.
use vstd::prelude::*;
use vstd::string::StringExecFns;

use crate::codec::{decode_zip_filename, strict_decode, Codec, NameError};

verus! {

/// The report lines for the character sets among `names` under which `raw`
/// decodes: `"<name>: <decoded>"`, in catalog order.
pub open spec fn probe_lines(names: Seq<Seq<char>>, raw: Seq<u8>) -> Seq<Seq<char>>
    decreases names.len(),
{
    if names.len() == 0 {
        Seq::empty()
    } else {
        let prev = probe_lines(names.drop_last(), raw);
        match strict_decode(names.last(), raw) {
            Some(t) => prev.push(names.last() + seq![':', ' '] + t),
            None => prev,
        }
    }
}

/// The texts of a list of strings.
pub open spec fn texts(v: Seq<String>) -> Seq<Seq<char>> {
    v.map_values(|s: String| s@)
}

/// Tries every character set named in `names` on `raw` and reports each one
/// that decodes it, with its result.
pub fn try_all_encodings(names: &Vec<String>, raw: &[u8]) -> (r: Vec<String>)
    ensures
        texts(r@) == probe_lines(texts(names@), raw@),
{
    let mut r: Vec<String> = Vec::new();
    let mut i: usize = 0;
    assert(texts(names@).take(0) =~= Seq::<Seq<char>>::empty());
    assert(texts(r@) =~= Seq::<Seq<char>>::empty());
    while i < names.len()
        invariant
            i <= names.len(),
            texts(r@) == probe_lines(texts(names@).take(i as int), raw@),
        decreases names.len() - i,
    {
        let ghost pre = texts(names@).take(i as int);
        let ghost next = texts(names@).take(i as int + 1);
        assert(next.drop_last() =~= pre);
        assert(next.last() == names@[i as int]@);
        let codec = Codec { name: names[i].clone() };
        match decode_zip_filename(&codec, raw, "") {
            Ok(t) => {
                let mut line = String::from_str(names[i].as_str());
                line.append(": ");
                line.append(t.as_str());
                proof {
                    reveal_strlit(": ");
                    assert(line@ =~= names@[i as int]@ + seq![':', ' '] + t@);
                }
                let ghost old_r = r@;
                r.push(line);
                assert(texts(r@) =~= texts(old_r).push(line@));
            },
            Err(_) => {},
        }
        i = i + 1;
    }
    assert(texts(names@).take(names.len() as int) =~= texts(names@));
    r
}

/// Whether each raw name decodes under `codec`, in order, up to the first
/// that does not.
pub open spec fn all_decode(label: Seq<char>, raws: Seq<Seq<u8>>, n: int) -> bool {
    forall|j: int| 0 <= j < n ==> (#[trigger] strict_decode(label, raws[j])) is Some
}

/// The bytes of a list of byte vectors.
pub open spec fn byte_seqs(v: Seq<Vec<u8>>) -> Seq<Seq<u8>> {
    v.map_values(|b: Vec<u8>| b@)
}

/// Decodes the names of all entries in directory order. Returns the names
/// decoded before the first that fails, and that failure, if any; `entries`
/// gives how a failure names its entry.
pub fn list_names(codec: &Codec, raws: &Vec<Vec<u8>>, entries: &Vec<String>) -> (r: (
    Vec<String>,
    Option<NameError>,
))
    requires
        raws.len() == entries.len(),
    ensures
        ({
            let (names, err) = r;
            let raw = byte_seqs(raws@);
            &&& names.len() <= raws.len()
            &&& all_decode(codec.name@, raw, names.len() as int)
            &&& forall|j: int|
                0 <= j < names.len() ==> strict_decode(codec.name@, raw[j]) == Some(
                    #[trigger] names@[j]@,
                )
            &&& match err {
                None => names.len() == raws.len(),
                Some(e) => names.len() < raws.len() && strict_decode(
                    codec.name@,
                    raw[names.len() as int],
                ) is None && (e matches NameError::Undecodable { codec: c, entry: en } && c@
                    == codec.name@ && en@ == entries@[names.len() as int]@),
            }
        }),
{
    let mut names: Vec<String> = Vec::new();
    let mut i: usize = 0;
    while i < raws.len()
        invariant
            raws.len() == entries.len(),
            i <= raws.len(),
            names.len() == i,
            all_decode(codec.name@, byte_seqs(raws@), i as int),
            forall|j: int|
                0 <= j < i ==> strict_decode(codec.name@, byte_seqs(raws@)[j]) == Some(
                    #[trigger] names@[j]@,
                ),
        decreases raws.len() - i,
    {
        assert(byte_seqs(raws@)[i as int] == raws@[i as int]@);
        match decode_zip_filename(codec, raws[i].as_slice(), entries[i].as_str()) {
            Ok(t) => {
                names.push(t);
            },
            Err(e) => {
                return (names, Some(e));
            },
        }
        i = i + 1;
    }
    (names, None)
}

} // verus!
