//! Diagnostics that the language server publishes.
use std::collections::hash_map::DefaultHasher;
use std::hash::Hasher;
use vstd::prelude::*;
use vstd::std_specs::hash::DefaultHasherAdditionalSpecFns;

use crate::text;

verus! {

/// One diagnostic: a range of positions, how severe it is, and what it says.
pub struct DiagItem {
    pub start_line: u32,
    pub start_character: u32,
    pub end_line: u32,
    pub end_character: u32,
    /// The name of the severity, such as `Error`.
    pub severity: Option<String>,
    pub message: String,
}

impl View for DiagItem {
    type V = (u32, u32, u32, u32, Option<Seq<char>>, Seq<char>);

    open spec fn view(&self) -> (u32, u32, u32, u32, Option<Seq<char>>, Seq<char>) {
        (
            self.start_line,
            self.start_character,
            self.end_line,
            self.end_character,
            text::opt_text(self.severity),
            self.message@,
        )
    }
}

/// The views of a list of diagnostics.
pub open spec fn views(items: Seq<DiagItem>) -> Seq<
    (u32, u32, u32, u32, Option<Seq<char>>, Seq<char>),
> {
    items.map_values(|d: DiagItem| d@)
}

/// The views of a list of diagnostics, where there is one.
pub open spec fn opt_views(items: Option<Vec<DiagItem>>) -> Option<
    Seq<(u32, u32, u32, u32, Option<Seq<char>>, Seq<char>)>,
> {
    match items {
        Some(v) => Some(views(v@)),
        None => None,
    }
}

/// The text that a JSON object holds under a key.
pub uninterp spec fn member_text(raw: Seq<char>, key: Seq<char>) -> Option<Seq<char>>;

/// `serde_json::from_str` to a `Value`, then `Value::get` and `Value::as_str`: the text that the
/// JSON object `raw` holds under `key`; nothing where `raw` is no JSON object, or holds no text
/// there. How JSON is read is left to the name.
#[verifier::external_body]
fn json_member(raw: &str, key: &str) -> (r: Option<String>)
    ensures
        text::opt_text(r) == member_text(raw@, key@),
{
    let v: serde_json::Value = serde_json::from_str(raw).ok()?;
    v.get(key).and_then(|m| m.as_str()).map(|s| s.to_string())
}

/// How long a message may be, in bytes, for the addresses in it to be read.
pub const MAX_MESSAGE: usize = 0x7fff_ffff;

/// Whether the addresses in a message can be read.
pub open spec fn readable(raw: Seq<char>) -> bool {
    vstd::utf8::encode_utf8(raw).len() <= MAX_MESSAGE
}

/// The diagnostics of a published message.
pub uninterp spec fn published(raw: Seq<char>) -> Option<
    Seq<(u32, u32, u32, u32, Option<Seq<char>>, Seq<char>)>,
>;

/// `serde_json::from_str` to a `Value`, then `serde_json::from_value` to an
/// `lsp_types::PublishDiagnosticsParams`: the diagnostics of the message `raw` in their order, each
/// with its range, the `Debug` form of its severity and its message; nothing where `raw` is no such
/// message. How the message is read is left to the name. An address is no longer than the message,
/// and `lsp_types::Uri` takes addresses up to the bound alone.
#[verifier::external_body]
fn parse_published(raw: &str) -> (r: Option<Vec<DiagItem>>)
    requires
        readable(raw@),
    ensures
        opt_views(r) == published(raw@),
{
    let v: serde_json::Value = serde_json::from_str(raw).ok()?;
    let p: lsp_types::PublishDiagnosticsParams = serde_json::from_value(v).ok()?;
    Some(p.diagnostics.into_iter().map(|d| DiagItem {
        start_line: d.range.start.line,
        start_character: d.range.start.character,
        end_line: d.range.end.line,
        end_character: d.range.end.character,
        severity: d.severity.map(|s| format!("{:?}", s)),
        message: d.message,
    }).collect())
}

/// The address of a file, where a message's address names one.
pub open spec fn file_address(uri: Option<Seq<char>>) -> Option<Seq<char>> {
    match uri {
        Some(u) => if "file://"@.is_prefix_of(u) {
            Some(u)
        } else {
            None
        },
        None => None,
    }
}

/// The address, where it names a file.
pub fn only_files(uri: Option<String>) -> (r: Option<String>)
    ensures
        text::opt_text(r) == file_address(text::opt_text(uri)),
{
    match uri {
        Some(u) => if text::starts_with(u.as_str(), "file://") {
            Some(u)
        } else {
            None
        },
        None => None,
    }
}

/// The address of the file that a published message is about. Messages about anything else are
/// left out.
pub fn published_uri(raw: &str) -> (r: Option<String>)
    ensures
        text::opt_text(r) == file_address(member_text(raw@, "uri"@)),
{
    only_files(json_member(raw, "uri"))
}

/// The diagnostics of a published message.
pub fn read_published(raw: &str) -> (r: Option<Vec<DiagItem>>)
    requires
        readable(raw@),
    ensures
        opt_views(r) == published(raw@),
{
    parse_published(raw)
}

/// What one diagnostic contributes to a signature: its numbers, and its texts with an end mark that
/// occurs in no text.
pub open spec fn item_writes(
    d: (u32, u32, u32, u32, Option<Seq<char>>, Seq<char>),
) -> Seq<Seq<u8>> {
    seq![
        vstd::bytes::spec_u32_to_le_bytes(d.0),
        vstd::bytes::spec_u32_to_le_bytes(d.1),
        vstd::bytes::spec_u32_to_le_bytes(d.2),
        vstd::bytes::spec_u32_to_le_bytes(d.3),
        match d.4 {
            Some(s) => vstd::utf8::encode_utf8(s),
            None => Seq::empty(),
        },
        seq![0xffu8],
        vstd::utf8::encode_utf8(d.5),
        seq![0xffu8],
    ]
}

/// What a list of diagnostics contributes to a signature.
pub open spec fn list_writes(
    items: Seq<(u32, u32, u32, u32, Option<Seq<char>>, Seq<char>)>,
) -> Seq<Seq<u8>>
    decreases items.len(),
{
    if items.len() == 0 {
        Seq::empty()
    } else {
        list_writes(items.drop_last()) + item_writes(items.last())
    }
}

/// The signature of a list of diagnostics.
pub open spec fn signature_of(
    items: Seq<(u32, u32, u32, u32, Option<Seq<char>>, Seq<char>)>,
) -> u64 {
    DefaultHasher::spec_finish(
        list_writes(items).push(vstd::bytes::spec_u64_to_le_bytes(items.len() as u64)),
    )
}

fn write_item(h: &mut DefaultHasher, d: &DiagItem)
    ensures
        final(h)@ == old(h)@ + item_writes(d@),
{
    h.write(vstd::bytes::u32_to_le_bytes(d.start_line).as_slice());
    h.write(vstd::bytes::u32_to_le_bytes(d.start_character).as_slice());
    h.write(vstd::bytes::u32_to_le_bytes(d.end_line).as_slice());
    h.write(vstd::bytes::u32_to_le_bytes(d.end_character).as_slice());
    let mut end_mark: Vec<u8> = Vec::new();
    end_mark.push(0xff);
    assert(end_mark@ =~= seq![0xffu8]);
    match &d.severity {
        Some(s) => {
            h.write(s.as_str().as_bytes());
        },
        None => {
            let none: Vec<u8> = Vec::new();
            assert(none@ =~= Seq::<u8>::empty());
            h.write(none.as_slice());
        },
    }
    h.write(end_mark.as_slice());
    h.write(d.message.as_str().as_bytes());
    h.write(end_mark.as_slice());
    assert(h@ =~= old(h)@ + item_writes(d@));
}

/// The signature of a list of diagnostics, by which a repeated message is recognised.
pub fn signature(items: &Vec<DiagItem>) -> (r: u64)
    ensures
        r == signature_of(views(items@)),
{
    let mut h = DefaultHasher::new();
    let ghost all = views(items@);
    let mut i: usize = 0;
    assert(list_writes(all.take(0)) =~= h@);
    while i < items.len()
        invariant
            i <= items@.len(),
            all == views(items@),
            h@ == list_writes(all.take(i as int)),
        decreases items@.len() - i,
    {
        proof {
            assert(all.take(i + 1).drop_last() =~= all.take(i as int));
            assert(all.take(i + 1).last() == items@[i as int]@);
        }
        write_item(&mut h, &items[i]);
        i += 1;
    }
    assert(all.take(all.len() as int) =~= all);
    h.write(vstd::bytes::u64_to_le_bytes(items.len() as u64).as_slice());
    h.finish()
}

/// Only addresses of files are taken, as they are.
pub proof fn law_only_files_have_problems(uri: Option<String>, r: Option<String>, rest: Seq<char>)
    requires
        call_ensures(only_files, (uri,), r),
    ensures
        uri is None ==> r is None,
        r matches Some(t) ==> uri is Some && t@ == uri->0@,
        uri is Some && uri->0@ == "file://"@ + rest ==> r is Some,
        r matches Some(t) ==> exists|end: Seq<char>| t@ == #[trigger] ("file://"@ + end),
{
    if let Some(u) = uri {
        if u@ == "file://"@ + rest {
            assert(u@.take("file://"@.len() as int) =~= "file://"@);
        }
        if "file://"@.is_prefix_of(u@) {
            assert(u@ =~= "file://"@ + u@.skip("file://"@.len() as int));
        }
    }
}

} // verus!
