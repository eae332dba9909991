use vstd::prelude::*;
use crate::batch_types::{EdgeUpsert, FileUpsert, SiteUpsert, SymbolUpsert};
use crate::value::{props_view, push_prop, PropView, Value, ValueView};

verus! {

/// An optional text, empty when absent.
pub open spec fn opt_text(o: Option<String>) -> Seq<char> {
    match o {
        Some(s) => s@,
        None => Seq::empty(),
    }
}

/// An optional number, zero when absent.
pub open spec fn opt_u32(o: Option<u32>) -> u32 {
    match o {
        Some(n) => n,
        None => 0,
    }
}

/// A flag as the number 1 or 0.
pub open spec fn flag(b: bool) -> u32 {
    if b {
        1
    } else {
        0
    }
}

fn text_or_empty(o: &Option<String>) -> (r: String)
    ensures
        r@ == opt_text(*o),
{
    match o {
        Some(s) => s.clone(),
        None => String::new(),
    }
}

fn u32_or_zero(o: Option<u32>) -> (r: u32)
    ensures
        r == opt_u32(o),
{
    match o {
        Some(n) => n,
        None => 0,
    }
}

fn flag_value(b: bool) -> (r: u32)
    ensures
        r == flag(b),
{
    if b {
        1
    } else {
        0
    }
}

/// The properties of a new file node.
pub open spec fn file_props(f: FileUpsert) -> Seq<PropView> {
    seq![
        ("stable_id"@, ValueView::Text(f.stable_id@)),
        ("path"@, ValueView::Text(f.path@)),
        ("hash"@, ValueView::Text(f.hash@)),
        ("lang"@, ValueView::Text(f.lang@)),
        ("namespace"@, ValueView::Text(f.namespace@)),
        ("repo"@, ValueView::Text(f.repo@)),
    ]
}

/// The properties `file_props` describes.
pub fn file_create_props(f: &FileUpsert) -> (ps: Vec<(String, Value)>)
    ensures
        props_view(ps@) == file_props(*f),
{
    let mut ps: Vec<(String, Value)> = Vec::new();
    push_prop(&mut ps, "stable_id", Value::String(f.stable_id.clone()));
    push_prop(&mut ps, "path", Value::String(f.path.clone()));
    push_prop(&mut ps, "hash", Value::String(f.hash.clone()));
    push_prop(&mut ps, "lang", Value::String(f.lang.clone()));
    push_prop(&mut ps, "namespace", Value::String(f.namespace.clone()));
    push_prop(&mut ps, "repo", Value::String(f.repo.clone()));
    assert(props_view(ps@) =~= file_props(*f));
    ps
}

/// The properties an existing file node is updated with.
pub open spec fn file_update(f: FileUpsert) -> Seq<PropView> {
    seq![
        ("path"@, ValueView::Text(f.path@)),
        ("hash"@, ValueView::Text(f.hash@)),
        ("lang"@, ValueView::Text(f.lang@)),
        ("namespace"@, ValueView::Text(f.namespace@)),
        ("repo"@, ValueView::Text(f.repo@)),
    ]
}

/// The properties `file_update` describes.
pub fn file_update_props(f: &FileUpsert) -> (ps: Vec<(String, Value)>)
    ensures
        props_view(ps@) == file_update(*f),
{
    let mut ps: Vec<(String, Value)> = Vec::new();
    push_prop(&mut ps, "path", Value::String(f.path.clone()));
    push_prop(&mut ps, "hash", Value::String(f.hash.clone()));
    push_prop(&mut ps, "lang", Value::String(f.lang.clone()));
    push_prop(&mut ps, "namespace", Value::String(f.namespace.clone()));
    push_prop(&mut ps, "repo", Value::String(f.repo.clone()));
    assert(props_view(ps@) =~= file_update(*f));
    ps
}

/// The properties of a new symbol node.
pub open spec fn symbol_props(s: SymbolUpsert) -> Seq<PropView> {
    seq![
        ("stable_id"@, ValueView::Text(s.stable_id@)),
        ("fqn"@, ValueView::Text(s.fqn@)),
        ("kind"@, ValueView::Text(s.kind@)),
        ("file_stable_id"@, ValueView::Text(s.file_stable_id@)),
        ("span_start"@, ValueView::U32(s.span_start)),
        ("span_end"@, ValueView::U32(s.span_end)),
        ("range_start_line"@, ValueView::U32(s.range_start_line)),
        ("range_start_character"@, ValueView::U32(s.range_start_character)),
        ("range_end_line"@, ValueView::U32(s.range_end_line)),
        ("range_end_character"@, ValueView::U32(s.range_end_character)),
        ("byte_start"@, ValueView::U64(s.byte_start)),
        ("byte_end"@, ValueView::U64(s.byte_end)),
        ("identifier_tokens"@, ValueView::Text(s.identifier_tokens@)),
        ("name"@, ValueView::Text(s.name@)),
        ("signature"@, ValueView::Text(opt_text(s.signature))),
        ("doc"@, ValueView::Text(opt_text(s.doc))),
        ("file_path"@, ValueView::Text(s.file_path@)),
        ("language"@, ValueView::Text(s.language@)),
        ("visibility"@, ValueView::Text(s.visibility@)),
        ("namespace"@, ValueView::Text(s.namespace@)),
        ("repo"@, ValueView::Text(s.repo@)),
        ("default_x"@, ValueView::F64Bits(s.default_x)),
        ("default_y"@, ValueView::F64Bits(s.default_y)),
        ("default_z"@, ValueView::F64Bits(s.default_z)),
    ]
}

/// The properties `symbol_props` describes.
pub fn symbol_create_props(s: &SymbolUpsert) -> (ps: Vec<(String, Value)>)
    ensures
        props_view(ps@) == symbol_props(*s),
{
    let mut ps: Vec<(String, Value)> = Vec::new();
    push_prop(&mut ps, "stable_id", Value::String(s.stable_id.clone()));
    push_prop(&mut ps, "fqn", Value::String(s.fqn.clone()));
    push_prop(&mut ps, "kind", Value::String(s.kind.clone()));
    push_prop(&mut ps, "file_stable_id", Value::String(s.file_stable_id.clone()));
    push_prop(&mut ps, "span_start", Value::U32(s.span_start));
    push_prop(&mut ps, "span_end", Value::U32(s.span_end));
    push_prop(&mut ps, "range_start_line", Value::U32(s.range_start_line));
    push_prop(&mut ps, "range_start_character", Value::U32(s.range_start_character));
    push_prop(&mut ps, "range_end_line", Value::U32(s.range_end_line));
    push_prop(&mut ps, "range_end_character", Value::U32(s.range_end_character));
    push_prop(&mut ps, "byte_start", Value::U64(s.byte_start));
    push_prop(&mut ps, "byte_end", Value::U64(s.byte_end));
    push_prop(&mut ps, "identifier_tokens", Value::String(s.identifier_tokens.clone()));
    push_prop(&mut ps, "name", Value::String(s.name.clone()));
    push_prop(&mut ps, "signature", Value::String(text_or_empty(&s.signature)));
    push_prop(&mut ps, "doc", Value::String(text_or_empty(&s.doc)));
    push_prop(&mut ps, "file_path", Value::String(s.file_path.clone()));
    push_prop(&mut ps, "language", Value::String(s.language.clone()));
    push_prop(&mut ps, "visibility", Value::String(s.visibility.clone()));
    push_prop(&mut ps, "namespace", Value::String(s.namespace.clone()));
    push_prop(&mut ps, "repo", Value::String(s.repo.clone()));
    push_prop(&mut ps, "default_x", Value::F64Bits(s.default_x));
    push_prop(&mut ps, "default_y", Value::F64Bits(s.default_y));
    push_prop(&mut ps, "default_z", Value::F64Bits(s.default_z));
    assert(props_view(ps@) =~= symbol_props(*s));
    ps
}

/// The properties an existing symbol node is updated with.
pub open spec fn symbol_update(s: SymbolUpsert) -> Seq<PropView> {
    seq![
        ("fqn"@, ValueView::Text(s.fqn@)),
        ("kind"@, ValueView::Text(s.kind@)),
        ("file_stable_id"@, ValueView::Text(s.file_stable_id@)),
        ("span_start"@, ValueView::U32(s.span_start)),
        ("span_end"@, ValueView::U32(s.span_end)),
        ("range_start_line"@, ValueView::U32(s.range_start_line)),
        ("range_start_character"@, ValueView::U32(s.range_start_character)),
        ("range_end_line"@, ValueView::U32(s.range_end_line)),
        ("range_end_character"@, ValueView::U32(s.range_end_character)),
        ("byte_start"@, ValueView::U64(s.byte_start)),
        ("byte_end"@, ValueView::U64(s.byte_end)),
        ("identifier_tokens"@, ValueView::Text(s.identifier_tokens@)),
        ("name"@, ValueView::Text(s.name@)),
        ("signature"@, ValueView::Text(opt_text(s.signature))),
        ("doc"@, ValueView::Text(opt_text(s.doc))),
        ("file_path"@, ValueView::Text(s.file_path@)),
        ("language"@, ValueView::Text(s.language@)),
        ("visibility"@, ValueView::Text(s.visibility@)),
        ("namespace"@, ValueView::Text(s.namespace@)),
        ("repo"@, ValueView::Text(s.repo@)),
        ("default_x"@, ValueView::F64Bits(s.default_x)),
        ("default_y"@, ValueView::F64Bits(s.default_y)),
        ("default_z"@, ValueView::F64Bits(s.default_z)),
    ]
}

/// The properties `symbol_update` describes.
pub fn symbol_update_props(s: &SymbolUpsert) -> (ps: Vec<(String, Value)>)
    ensures
        props_view(ps@) == symbol_update(*s),
{
    let mut ps: Vec<(String, Value)> = Vec::new();
    push_prop(&mut ps, "fqn", Value::String(s.fqn.clone()));
    push_prop(&mut ps, "kind", Value::String(s.kind.clone()));
    push_prop(&mut ps, "file_stable_id", Value::String(s.file_stable_id.clone()));
    push_prop(&mut ps, "span_start", Value::U32(s.span_start));
    push_prop(&mut ps, "span_end", Value::U32(s.span_end));
    push_prop(&mut ps, "range_start_line", Value::U32(s.range_start_line));
    push_prop(&mut ps, "range_start_character", Value::U32(s.range_start_character));
    push_prop(&mut ps, "range_end_line", Value::U32(s.range_end_line));
    push_prop(&mut ps, "range_end_character", Value::U32(s.range_end_character));
    push_prop(&mut ps, "byte_start", Value::U64(s.byte_start));
    push_prop(&mut ps, "byte_end", Value::U64(s.byte_end));
    push_prop(&mut ps, "identifier_tokens", Value::String(s.identifier_tokens.clone()));
    push_prop(&mut ps, "name", Value::String(s.name.clone()));
    push_prop(&mut ps, "signature", Value::String(text_or_empty(&s.signature)));
    push_prop(&mut ps, "doc", Value::String(text_or_empty(&s.doc)));
    push_prop(&mut ps, "file_path", Value::String(s.file_path.clone()));
    push_prop(&mut ps, "language", Value::String(s.language.clone()));
    push_prop(&mut ps, "visibility", Value::String(s.visibility.clone()));
    push_prop(&mut ps, "namespace", Value::String(s.namespace.clone()));
    push_prop(&mut ps, "repo", Value::String(s.repo.clone()));
    push_prop(&mut ps, "default_x", Value::F64Bits(s.default_x));
    push_prop(&mut ps, "default_y", Value::F64Bits(s.default_y));
    push_prop(&mut ps, "default_z", Value::F64Bits(s.default_z));
    assert(props_view(ps@) =~= symbol_update(*s));
    ps
}

/// The properties of a new site node.
pub open spec fn site_props(s: SiteUpsert) -> Seq<PropView> {
    seq![
        ("stable_id"@, ValueView::Text(s.stable_id@)),
        ("kind"@, ValueView::Text(s.kind@)),
        ("source_stable_id"@, ValueView::Text(s.source_stable_id@)),
        ("container_stable_id"@, ValueView::Text(s.container_stable_id@)),
        ("file_stable_id"@, ValueView::Text(s.file_stable_id@)),
        ("file_path"@, ValueView::Text(s.file_path@)),
        ("uri"@, ValueView::Text(s.uri@)),
        ("range_start_line"@, ValueView::U32(s.range_start_line)),
        ("range_start_character"@, ValueView::U32(s.range_start_character)),
        ("range_end_line"@, ValueView::U32(s.range_end_line)),
        ("range_end_character"@, ValueView::U32(s.range_end_character)),
        ("byte_start"@, ValueView::U64(s.byte_start)),
        ("byte_end"@, ValueView::U64(s.byte_end)),
        ("snippet"@, ValueView::Text(opt_text(s.snippet))),
        ("snippet_highlight_start_line"@, ValueView::U32(opt_u32(s.snippet_highlight_start_line))),
        ("snippet_highlight_start_character"@, ValueView::U32(opt_u32(s.snippet_highlight_start_character))),
        ("snippet_highlight_end_line"@, ValueView::U32(opt_u32(s.snippet_highlight_end_line))),
        ("snippet_highlight_end_character"@, ValueView::U32(opt_u32(s.snippet_highlight_end_character))),
        ("language"@, ValueView::Text(s.language@)),
        ("is_in_test"@, ValueView::U32(flag(s.is_in_test))),
        ("is_conditional"@, ValueView::U32(flag(s.is_conditional))),
        ("is_generated"@, ValueView::U32(flag(s.is_generated))),
        ("namespace"@, ValueView::Text(s.namespace@)),
        ("repo"@, ValueView::Text(s.repo@)),
    ]
}

/// The properties `site_props` describes.
pub fn site_create_props(s: &SiteUpsert) -> (ps: Vec<(String, Value)>)
    ensures
        props_view(ps@) == site_props(*s),
{
    let mut ps: Vec<(String, Value)> = Vec::new();
    push_prop(&mut ps, "stable_id", Value::String(s.stable_id.clone()));
    push_prop(&mut ps, "kind", Value::String(s.kind.clone()));
    push_prop(&mut ps, "source_stable_id", Value::String(s.source_stable_id.clone()));
    push_prop(&mut ps, "container_stable_id", Value::String(s.container_stable_id.clone()));
    push_prop(&mut ps, "file_stable_id", Value::String(s.file_stable_id.clone()));
    push_prop(&mut ps, "file_path", Value::String(s.file_path.clone()));
    push_prop(&mut ps, "uri", Value::String(s.uri.clone()));
    push_prop(&mut ps, "range_start_line", Value::U32(s.range_start_line));
    push_prop(&mut ps, "range_start_character", Value::U32(s.range_start_character));
    push_prop(&mut ps, "range_end_line", Value::U32(s.range_end_line));
    push_prop(&mut ps, "range_end_character", Value::U32(s.range_end_character));
    push_prop(&mut ps, "byte_start", Value::U64(s.byte_start));
    push_prop(&mut ps, "byte_end", Value::U64(s.byte_end));
    push_prop(&mut ps, "snippet", Value::String(text_or_empty(&s.snippet)));
    push_prop(&mut ps, "snippet_highlight_start_line", Value::U32(u32_or_zero(s.snippet_highlight_start_line)));
    push_prop(&mut ps, "snippet_highlight_start_character", Value::U32(u32_or_zero(s.snippet_highlight_start_character)));
    push_prop(&mut ps, "snippet_highlight_end_line", Value::U32(u32_or_zero(s.snippet_highlight_end_line)));
    push_prop(&mut ps, "snippet_highlight_end_character", Value::U32(u32_or_zero(s.snippet_highlight_end_character)));
    push_prop(&mut ps, "language", Value::String(s.language.clone()));
    push_prop(&mut ps, "is_in_test", Value::U32(flag_value(s.is_in_test)));
    push_prop(&mut ps, "is_conditional", Value::U32(flag_value(s.is_conditional)));
    push_prop(&mut ps, "is_generated", Value::U32(flag_value(s.is_generated)));
    push_prop(&mut ps, "namespace", Value::String(s.namespace.clone()));
    push_prop(&mut ps, "repo", Value::String(s.repo.clone()));
    assert(props_view(ps@) =~= site_props(*s));
    ps
}

/// The properties of both edges of a site.
pub open spec fn site_edge_props(s: SiteUpsert) -> Seq<PropView> {
    seq![
        ("stable_id"@, ValueView::Text(s.stable_id@)),
        ("namespace"@, ValueView::Text(s.namespace@)),
        ("repo"@, ValueView::Text(s.repo@)),
    ]
}

/// The properties `site_edge_props` describes.
pub fn site_edge_create_props(s: &SiteUpsert) -> (ps: Vec<(String, Value)>)
    ensures
        props_view(ps@) == site_edge_props(*s),
{
    let mut ps: Vec<(String, Value)> = Vec::new();
    push_prop(&mut ps, "stable_id", Value::String(s.stable_id.clone()));
    push_prop(&mut ps, "namespace", Value::String(s.namespace.clone()));
    push_prop(&mut ps, "repo", Value::String(s.repo.clone()));
    assert(props_view(ps@) =~= site_edge_props(*s));
    ps
}
/// The payload property of an edge, when it has one.
pub open spec fn payload_props(e: EdgeUpsert) -> Seq<PropView> {
    match e.payload {
        Some(p) => seq![("payload"@, ValueView::Text(p@))],
        None => Seq::empty(),
    }
}

/// The properties of a new edge.
pub open spec fn edge_props(e: EdgeUpsert) -> Seq<PropView> {
    seq![
        ("stable_id"@, ValueView::Text(e.stable_id@)),
        ("namespace"@, ValueView::Text(e.namespace@)),
        ("repo"@, ValueView::Text(e.repo@)),
    ] + payload_props(e)
}

/// The properties an existing edge is updated with.
pub open spec fn edge_update(e: EdgeUpsert) -> Seq<PropView> {
    seq![("namespace"@, ValueView::Text(e.namespace@)), ("repo"@, ValueView::Text(e.repo@))]
        + payload_props(e)
}

/// The properties `edge_props` describes.
pub fn edge_create_props(e: &EdgeUpsert) -> (ps: Vec<(String, Value)>)
    ensures
        props_view(ps@) == edge_props(*e),
{
    let mut ps: Vec<(String, Value)> = Vec::new();
    push_prop(&mut ps, "stable_id", Value::String(e.stable_id.clone()));
    push_prop(&mut ps, "namespace", Value::String(e.namespace.clone()));
    push_prop(&mut ps, "repo", Value::String(e.repo.clone()));
    if let Some(p) = &e.payload {
        push_prop(&mut ps, "payload", Value::String(p.clone()));
    }
    assert(props_view(ps@) =~= edge_props(*e));
    ps
}

/// The properties `edge_update` describes.
pub fn edge_update_props(e: &EdgeUpsert) -> (ps: Vec<(String, Value)>)
    ensures
        props_view(ps@) == edge_update(*e),
{
    let mut ps: Vec<(String, Value)> = Vec::new();
    push_prop(&mut ps, "namespace", Value::String(e.namespace.clone()));
    push_prop(&mut ps, "repo", Value::String(e.repo.clone()));
    if let Some(p) = &e.payload {
        push_prop(&mut ps, "payload", Value::String(p.clone()));
    }
    assert(props_view(ps@) =~= edge_update(*e));
    ps
}

/// The properties of a new ingest-state node.
pub open spec fn ingest_props(partition: u32, offset: u64, to_rev: Seq<char>) -> Seq<PropView> {
    seq![
        ("partition"@, ValueView::U32(partition)),
        ("offset"@, ValueView::U64(offset)),
        ("to_rev"@, ValueView::Text(to_rev)),
    ]
}

/// The properties an existing ingest-state node is updated with.
pub open spec fn ingest_update(offset: u64, to_rev: Seq<char>) -> Seq<PropView> {
    seq![("offset"@, ValueView::U64(offset)), ("to_rev"@, ValueView::Text(to_rev))]
}

/// The properties `ingest_props` describes.
pub fn ingest_create_props(partition: u32, offset: u64, to_rev: &str) -> (ps: Vec<(String, Value)>)
    ensures
        props_view(ps@) == ingest_props(partition, offset, to_rev@),
{
    let mut ps: Vec<(String, Value)> = Vec::new();
    push_prop(&mut ps, "partition", Value::U32(partition));
    push_prop(&mut ps, "offset", Value::U64(offset));
    push_prop(&mut ps, "to_rev", Value::String(to_rev.to_owned()));
    assert(props_view(ps@) =~= ingest_props(partition, offset, to_rev@));
    ps
}

/// The properties `ingest_update` describes.
pub fn ingest_update_props(offset: u64, to_rev: &str) -> (ps: Vec<(String, Value)>)
    ensures
        props_view(ps@) == ingest_update(offset, to_rev@),
{
    let mut ps: Vec<(String, Value)> = Vec::new();
    push_prop(&mut ps, "offset", Value::U64(offset));
    push_prop(&mut ps, "to_rev", Value::String(to_rev.to_owned()));
    assert(props_view(ps@) =~= ingest_update(offset, to_rev@));
    ps
}

} // verus!
