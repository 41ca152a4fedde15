//! JSON forms that the library reads and writes itself.

use crate::content::{copy_opt, opt_text, texts};
use vstd::prelude::*;
use vstd::string::*;

verus! {

/// The JSON array of some texts, as `serde_json::to_vec` writes it.
pub uninterp spec fn json_of_texts(list: Seq<Seq<char>>) -> Seq<u8>;

/// The texts of a JSON array, as `serde_json::from_slice` reads them, or why
/// the bytes are none.
pub uninterp spec fn texts_in_json(bytes: Seq<u8>) -> Result<Seq<Seq<char>>, Seq<char>>;

/// The bytes are a JSON array of these texts.
pub open spec fn holds_texts(bytes: Seq<u8>, list: Seq<Seq<char>>) -> bool {
    texts_in_json(bytes) == Ok::<Seq<Seq<char>>, Seq<char>>(list)
}

/// What `serde_json::from_slice` makes of some bytes: an error, a value that
/// is no array, or an array, of which each element gives the texts at some
/// JSON pointers, where there are such.
pub uninterp spec fn array_in_json(bytes: Seq<u8>, pointers: Seq<Seq<char>>) -> Result<
    Option<Seq<Seq<Option<Seq<char>>>>>,
    Seq<char>,
>;

/// The texts that may be missing.
pub open spec fn opt_texts(s: Seq<Option<String>>) -> Seq<Option<Seq<char>>> {
    Seq::new(s.len(), |i: int| opt_text(s[i]))
}

/// The texts of rows.
pub open spec fn rows_view(s: Seq<Vec<Option<String>>>) -> Seq<Seq<Option<Seq<char>>>> {
    Seq::new(s.len(), |i: int| opt_texts(s[i]@))
}

/// The value of what was read of an array.
pub open spec fn rows_outcome(r: Result<Option<Vec<Vec<Option<String>>>>, String>) -> Result<
    Option<Seq<Seq<Option<Seq<char>>>>>,
    Seq<char>,
> {
    match r {
        Ok(Some(rows)) => Ok(Some(rows_view(rows@))),
        Ok(None) => Ok(None),
        Err(e) => Err(e@),
    }
}

/// Each row that was read has a number of texts.
pub open spec fn rows_have(r: Result<Option<Vec<Vec<Option<String>>>>, String>, n: nat) -> bool {
    r matches Ok(Some(rows)) ==> forall|i: int|
        0 <= i < rows@.len() ==> (#[trigger] rows@[i])@.len() == n
}

/// What a list of signed records in JSON says of one record.
#[derive(Debug, Clone, PartialEq, Eq)]
pub struct ChainEntry {
    pub site: Option<String>,
    pub path: Option<String>,
    pub signature: Option<String>,
}

impl View for ChainEntry {
    type V = (Option<Seq<char>>, Option<Seq<char>>, Option<Seq<char>>);

    open spec fn view(&self) -> (Option<Seq<char>>, Option<Seq<char>>, Option<Seq<char>>) {
        (opt_text(self.site), opt_text(self.path), opt_text(self.signature))
    }
}

/// The values of chain entries.
pub open spec fn entries_view(s: Seq<ChainEntry>) -> Seq<
    (Option<Seq<char>>, Option<Seq<char>>, Option<Seq<char>>),
> {
    Seq::new(s.len(), |i: int| s[i]@)
}

/// Where the site, the path and the signature of a signed record stand.
pub open spec fn chain_pointers() -> Seq<Seq<char>> {
    seq!["/record/site"@, "/record/path"@, "/signature_hex"@]
}

/// What some bytes say as a list of signed records in JSON: an error, no
/// array, or the site, path and signature of each record, where there are
/// such.
pub open spec fn entries_in_json(bytes: Seq<u8>) -> Result<
    Option<Seq<(Option<Seq<char>>, Option<Seq<char>>, Option<Seq<char>>)>>,
    Seq<char>,
> {
    match array_in_json(bytes, chain_pointers()) {
        Err(e) => Err(e),
        Ok(None) => Ok(None),
        Ok(Some(rows)) => Ok(
            Some(Seq::new(rows.len(), |i: int| (rows[i][0], rows[i][1], rows[i][2]))),
        ),
    }
}

/// The value of what was read of a chain.
pub open spec fn entries_outcome(r: Result<Option<Vec<ChainEntry>>, String>) -> Result<
    Option<Seq<(Option<Seq<char>>, Option<Seq<char>>, Option<Seq<char>>)>>,
    Seq<char>,
> {
    match r {
        Ok(Some(list)) => Ok(Some(entries_view(list@))),
        Ok(None) => Ok(None),
        Err(e) => Err(e@),
    }
}

/// `serde_json::to_vec` on a list of texts: it does not fail, as neither a
/// text nor a list refuses to be written and no map is among them, and gives
/// the JSON array, which `serde_json::from_slice` reads back as the same list.
#[verifier::external_body]
pub(crate) fn texts_to_json(list: &Vec<String>) -> (out: Result<Vec<u8>, String>)
    ensures
        out is Ok,
        out->Ok_0@ == json_of_texts(texts(list@)),
        holds_texts(out->Ok_0@, texts(list@)),
{
    serde_json::to_vec(list).map_err(|e| e.to_string())
}

/// `serde_json::from_slice` into a list of texts, which depends on the bytes
/// alone.
#[verifier::external_body]
pub(crate) fn texts_from_json(bytes: &[u8]) -> (out: Result<Vec<String>, String>)
    ensures
        match out {
            Ok(list) => texts_in_json(bytes@) == Ok::<Seq<Seq<char>>, Seq<char>>(texts(list@)),
            Err(e) => texts_in_json(bytes@) == Err::<Seq<Seq<char>>, Seq<char>>(e@),
        },
{
    serde_json::from_slice(bytes).map_err(|e| e.to_string())
}

/// `serde_json::from_slice` into a JSON value, which depends on the bytes
/// alone; of each element of an array the texts at the pointers, one for each
/// pointer, as `serde_json::Value::pointer` and `as_str` find them.
#[verifier::external_body]
pub(crate) fn array_from_json(bytes: &[u8], pointers: &Vec<String>) -> (out: Result<
    Option<Vec<Vec<Option<String>>>>,
    String,
>)
    ensures
        rows_outcome(out) == array_in_json(bytes@, texts(pointers@)),
        rows_have(out, pointers@.len()),
{
    let text = |v: &serde_json::Value, p: &String| Some(v.pointer(p)?.as_str()?.to_owned());
    let row = |v: &serde_json::Value| pointers.iter().map(|p| text(v, p)).collect();
    match serde_json::from_slice(bytes) {
        Ok(serde_json::Value::Array(list)) => Ok(Some(list.iter().map(row).collect())),
        Ok(_) => Ok(None),
        Err(e) => Err(e.to_string()),
    }
}

/// Reads a list of signed records in JSON, as far as it says for which route
/// they are and whether they are signed.
pub(crate) fn chain_from_json(bytes: &[u8]) -> (out: Result<Option<Vec<ChainEntry>>, String>)
    ensures
        entries_outcome(out) == entries_in_json(bytes@),
{
    let mut pointers: Vec<String> = Vec::new();
    pointers.push("/record/site".to_owned());
    pointers.push("/record/path".to_owned());
    pointers.push("/signature_hex".to_owned());
    assert(texts(pointers@) =~= chain_pointers());
    let read = array_from_json(bytes, &pointers);
    let rows = match read {
        Err(e) => return Err(e),
        Ok(None) => return Ok(None),
        Ok(Some(rows)) => rows,
    };
    let ghost all = rows_view(rows@);
    let mut list: Vec<ChainEntry> = Vec::new();
    let mut i: usize = 0;
    while i < rows.len()
        invariant
            i <= rows@.len(),
            all == rows_view(rows@),
            forall|j: int| 0 <= j < rows@.len() ==> (#[trigger] rows@[j])@.len() == 3,
            list@.len() == i,
            forall|j: int|
                0 <= j < i ==> (#[trigger] list@[j])@ == (all[j][0], all[j][1], all[j][2]),
        decreases rows@.len() - i,
    {
        let row = &rows[i];
        assert(row@.len() == 3);
        let entry = ChainEntry {
            site: copy_opt(&row[0]),
            path: copy_opt(&row[1]),
            signature: copy_opt(&row[2]),
        };
        assert(all[i as int] == opt_texts(row@));
        list.push(entry);
        i = i + 1;
    }
    assert(entries_view(list@) =~= entries_in_json(bytes@)->Ok_0->0);
    Ok(Some(list))
}

/// A chain is read entry by entry: of each its site, its path and its
/// signature, in the order of the array.
pub proof fn law_chains_are_read_entry_by_entry(bytes: Seq<u8>)
    ensures
        ({
            let rows = array_in_json(
                bytes,
                seq!["/record/site"@, "/record/path"@, "/signature_hex"@],
            );
            match entries_in_json(bytes) {
                Err(e) => rows == Err::<Option<Seq<Seq<Option<Seq<char>>>>>, Seq<char>>(e),
                Ok(None) => rows == Ok::<Option<Seq<Seq<Option<Seq<char>>>>>, Seq<char>>(None),
                Ok(Some(list)) => rows matches Ok(Some(r)) && list.len() == r.len() && forall|
                    i: int,
                |
                    0 <= i < r.len() ==> (#[trigger] list[i]).0 == r[i][0] && list[i].1 == r[i][1]
                        && list[i].2 == r[i][2],
            }
        }),
{
}

} // verus!
