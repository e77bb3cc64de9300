//! The build pipeline: reset the manifest, render every external page,
//! then render every markdown file and copy every other content file,
//! recording one artifact each; the caller writes the returned files and
//! persists the manifest only after all of them succeed.

use vstd::prelude::*;

use crate::config::{Renderer, SiteConfig};
use crate::errors::SiteError;
use crate::manifest::{upsert, ManifestFileV, SiteManifest};
use crate::paths::{
    has_markdown_extension, is_markdown, join_path, join_spec, map_destination,
    pop_parent_replace_ext,
};
use crate::source::{ContentFile, ResolvedExternal};
use crate::time::Timestamp;

verus! {

/// One file the build asks its caller to write under the output tree.
#[derive(Debug)]
pub struct FileWrite {
    pub path: String,
    pub content: FileContent,
}

/// What lands in a written file: a page rendered by the rendering
/// capability, or bytes copied verbatim from the content tree.
#[derive(Debug)]
pub enum FileContent {
    Rendered(String),
    Copied(Vec<u8>),
}

/// The view of a resolved external page.
#[verifier::ext_equal]
pub struct ResolvedExternalV {
    pub source_id: Seq<char>,
    pub local_path: Seq<char>,
    pub content: Seq<char>,
    pub origin_modified: Timestamp,
}

impl View for ResolvedExternal {
    type V = ResolvedExternalV;

    open spec fn view(&self) -> ResolvedExternalV {
        ResolvedExternalV {
            source_id: self.page.source_url.id_spec(),
            local_path: self.page.local_path@,
            content: self.content@,
            origin_modified: self.origin_modified,
        }
    }
}

/// The view of a content-tree file.
#[verifier::ext_equal]
pub struct ContentFileV {
    pub path: Seq<char>,
    pub content: Seq<u8>,
    pub origin_modified: Timestamp,
}

impl View for ContentFile {
    type V = ContentFileV;

    open spec fn view(&self) -> ContentFileV {
        ContentFileV {
            path: self.path@,
            content: self.content@,
            origin_modified: self.origin_modified,
        }
    }
}

pub open spec fn externals_view(xs: Seq<ResolvedExternal>) -> Seq<ResolvedExternalV> {
    xs.map(|i: int, x: ResolvedExternal| x@)
}

pub open spec fn contents_view(cs: Seq<ContentFile>) -> Seq<ContentFileV> {
    cs.map(|i: int, c: ContentFile| c@)
}

/// The record produced for an external page under build directory `bdir`.
pub open spec fn external_entry(bdir: Seq<char>, x: ResolvedExternalV) -> ManifestFileV {
    ManifestFileV {
        origin: x.source_id,
        origin_modified: x.origin_modified,
        built_filepath: join_spec(bdir, x.local_path),
        destination: x.local_path,
    }
}

/// The record produced for a markdown content file: its destination is the
/// mapped path with the rendered-page extension.
pub open spec fn markdown_entry(bdir: Seq<char>, c: ContentFileV) -> ManifestFileV {
    ManifestFileV {
        origin: c.path,
        origin_modified: c.origin_modified,
        built_filepath: join_spec(bdir, map_destination(c.path, Some("html"@))),
        destination: map_destination(c.path, Some("html"@)),
    }
}

/// The record produced for any other content file: its destination keeps
/// the extension, its bytes are copied verbatim.
pub open spec fn copied_entry(bdir: Seq<char>, c: ContentFileV) -> ManifestFileV {
    ManifestFileV {
        origin: c.path,
        origin_modified: c.origin_modified,
        built_filepath: join_spec(bdir, map_destination(c.path, None)),
        destination: map_destination(c.path, None),
    }
}

/// The markdown files among `cs`, in order.
pub open spec fn md_files(cs: Seq<ContentFileV>) -> Seq<ContentFileV>
    decreases cs.len(),
{
    if cs.len() == 0 {
        Seq::empty()
    } else {
        let rest = md_files(cs.drop_last());
        if is_markdown(cs.last().path) {
            rest.push(cs.last())
        } else {
            rest
        }
    }
}

/// The non-markdown files among `cs`, in order.
pub open spec fn other_files(cs: Seq<ContentFileV>) -> Seq<ContentFileV>
    decreases cs.len(),
{
    if cs.len() == 0 {
        Seq::empty()
    } else {
        let rest = other_files(cs.drop_last());
        if !is_markdown(cs.last().path) {
            rest.push(cs.last())
        } else {
            rest
        }
    }
}

/// The records produced for the external pages, in order.
pub open spec fn external_entries(bdir: Seq<char>, xs: Seq<ResolvedExternalV>) -> Seq<
    ManifestFileV,
>
    decreases xs.len(),
{
    if xs.len() == 0 {
        Seq::empty()
    } else {
        external_entries(bdir, xs.drop_last()).push(external_entry(bdir, xs.last()))
    }
}

/// The records produced for the markdown files among `cs`, in order.
pub open spec fn markdown_entries(bdir: Seq<char>, cs: Seq<ContentFileV>) -> Seq<ManifestFileV>
    decreases cs.len(),
{
    if cs.len() == 0 {
        Seq::empty()
    } else {
        let rest = markdown_entries(bdir, cs.drop_last());
        if is_markdown(cs.last().path) {
            rest.push(markdown_entry(bdir, cs.last()))
        } else {
            rest
        }
    }
}

/// The records produced for the non-markdown files among `cs`, in order.
pub open spec fn copied_entries(bdir: Seq<char>, cs: Seq<ContentFileV>) -> Seq<ManifestFileV>
    decreases cs.len(),
{
    if cs.len() == 0 {
        Seq::empty()
    } else {
        let rest = copied_entries(bdir, cs.drop_last());
        if !is_markdown(cs.last().path) {
            rest.push(copied_entry(bdir, cs.last()))
        } else {
            rest
        }
    }
}

/// All records of one build, in recording order: the external pages, then
/// the markdown files, then the remaining content files.
pub open spec fn build_entries(
    bdir: Seq<char>,
    xs: Seq<ResolvedExternalV>,
    cs: Seq<ContentFileV>,
) -> Seq<ManifestFileV> {
    external_entries(bdir, xs) + markdown_entries(bdir, cs) + copied_entries(bdir, cs)
}

/// The records `entries` folded into `files` by upsert, left to right.
pub open spec fn upsert_all(files: Seq<ManifestFileV>, entries: Seq<ManifestFileV>) -> Seq<
    ManifestFileV,
>
    decreases entries.len(),
{
    if entries.len() == 0 {
        files
    } else {
        upsert(upsert_all(files, entries.drop_last()), entries.last())
    }
}

pub proof fn lemma_upsert_all_push(
    files: Seq<ManifestFileV>,
    entries: Seq<ManifestFileV>,
    e: ManifestFileV,
)
    ensures
        upsert_all(files, entries.push(e)) == upsert(upsert_all(files, entries), e),
{
    assert(entries.push(e).drop_last() =~= entries);
    assert(entries.push(e).last() == e);
}

proof fn lemma_external_entries_step(bdir: Seq<char>, xs: Seq<ResolvedExternalV>, i: int)
    requires
        0 <= i < xs.len(),
    ensures
        external_entries(bdir, xs.take(i + 1)) == external_entries(bdir, xs.take(i)).push(
            external_entry(bdir, xs[i]),
        ),
{
    assert(xs.take(i + 1).drop_last() =~= xs.take(i));
    assert(xs.take(i + 1).last() == xs[i]);
}

proof fn lemma_content_step(bdir: Seq<char>, cs: Seq<ContentFileV>, i: int)
    requires
        0 <= i < cs.len(),
    ensures
        is_markdown(cs[i].path) ==> {
            &&& markdown_entries(bdir, cs.take(i + 1)) == markdown_entries(bdir, cs.take(i)).push(
                markdown_entry(bdir, cs[i]),
            )
            &&& md_files(cs.take(i + 1)) == md_files(cs.take(i)).push(cs[i])
            &&& copied_entries(bdir, cs.take(i + 1)) == copied_entries(bdir, cs.take(i))
            &&& other_files(cs.take(i + 1)) == other_files(cs.take(i))
        },
        !is_markdown(cs[i].path) ==> {
            &&& markdown_entries(bdir, cs.take(i + 1)) == markdown_entries(bdir, cs.take(i))
            &&& md_files(cs.take(i + 1)) == md_files(cs.take(i))
            &&& copied_entries(bdir, cs.take(i + 1)) == copied_entries(bdir, cs.take(i)).push(
                copied_entry(bdir, cs[i]),
            )
            &&& other_files(cs.take(i + 1)) == other_files(cs.take(i)).push(cs[i])
        },
{
    assert(cs.take(i + 1).drop_last() =~= cs.take(i));
    assert(cs.take(i + 1).last() == cs[i]);
}

proof fn lemma_external_entries_len(bdir: Seq<char>, xs: Seq<ResolvedExternalV>)
    ensures
        external_entries(bdir, xs).len() == xs.len(),
    decreases xs.len(),
{
    if xs.len() > 0 {
        lemma_external_entries_len(bdir, xs.drop_last());
    }
}

proof fn lemma_content_entries_len(bdir: Seq<char>, cs: Seq<ContentFileV>)
    ensures
        markdown_entries(bdir, cs).len() == md_files(cs).len(),
        copied_entries(bdir, cs).len() == other_files(cs).len(),
        md_files(cs).len() <= cs.len(),
        other_files(cs).len() <= cs.len(),
    decreases cs.len(),
{
    if cs.len() > 0 {
        lemma_content_entries_len(bdir, cs.drop_last());
    }
}

/// Law (partition conservation): every content file is either a markdown
/// file or one of the others, so the two partition counts add up to the
/// number of files collected from the content tree.
pub proof fn lemma_partition_conservation(cs: Seq<ContentFileV>)
    ensures
        md_files(cs).len() + other_files(cs).len() == cs.len(),
    decreases cs.len(),
{
    if cs.len() > 0 {
        lemma_partition_conservation(cs.drop_last());
    }
}

proof fn lemma_external_entries_index(bdir: Seq<char>, xs: Seq<ResolvedExternalV>)
    ensures
        external_entries(bdir, xs).len() == xs.len(),
        forall|t: int|
            0 <= t < xs.len() ==> #[trigger] external_entries(bdir, xs)[t] == external_entry(
                bdir,
                xs[t],
            ),
    decreases xs.len(),
{
    if xs.len() > 0 {
        lemma_external_entries_index(bdir, xs.drop_last());
        let es = external_entries(bdir, xs);
        assert forall|t: int| 0 <= t < xs.len() implies #[trigger] es[t] == external_entry(
            bdir,
            xs[t],
        ) by {
            if t < xs.len() - 1 {
                assert(xs.drop_last()[t] == xs[t]);
                assert(es[t] == external_entries(bdir, xs.drop_last())[t]);
            }
        }
    }
}

proof fn lemma_markdown_entries_index(bdir: Seq<char>, cs: Seq<ContentFileV>)
    ensures
        markdown_entries(bdir, cs).len() == md_files(cs).len(),
        forall|t: int|
            0 <= t < md_files(cs).len() ==> #[trigger] markdown_entries(bdir, cs)[t]
                == markdown_entry(bdir, md_files(cs)[t]),
    decreases cs.len(),
{
    if cs.len() > 0 {
        lemma_markdown_entries_index(bdir, cs.drop_last());
        let es = markdown_entries(bdir, cs);
        let fs = md_files(cs);
        assert forall|t: int| 0 <= t < fs.len() implies #[trigger] es[t] == markdown_entry(
            bdir,
            fs[t],
        ) by {
            if t < md_files(cs.drop_last()).len() {
                assert(es[t] == markdown_entries(bdir, cs.drop_last())[t]);
                assert(fs[t] == md_files(cs.drop_last())[t]);
            }
        }
    }
}

proof fn lemma_copied_entries_index(bdir: Seq<char>, cs: Seq<ContentFileV>)
    ensures
        copied_entries(bdir, cs).len() == other_files(cs).len(),
        forall|t: int|
            0 <= t < other_files(cs).len() ==> #[trigger] copied_entries(bdir, cs)[t]
                == copied_entry(bdir, other_files(cs)[t]),
    decreases cs.len(),
{
    if cs.len() > 0 {
        lemma_copied_entries_index(bdir, cs.drop_last());
        let es = copied_entries(bdir, cs);
        let fs = other_files(cs);
        assert forall|t: int| 0 <= t < fs.len() implies #[trigger] es[t] == copied_entry(
            bdir,
            fs[t],
        ) by {
            if t < other_files(cs.drop_last()).len() {
                assert(es[t] == copied_entries(bdir, cs.drop_last())[t]);
                assert(fs[t] == other_files(cs.drop_last())[t]);
            }
        }
    }
}

/// Law (one record per input): a build produces one record per input, in
/// recording order, and each record is keyed by its input's own origin
/// identifier: the external sources first, then the markdown paths, then
/// the other content paths.
pub proof fn lemma_build_entries_origins(
    bdir: Seq<char>,
    xs: Seq<ResolvedExternalV>,
    cs: Seq<ContentFileV>,
)
    ensures
        build_entries(bdir, xs, cs).len() == xs.len() + md_files(cs).len() + other_files(cs).len(),
        forall|t: int|
            0 <= t < xs.len() ==> #[trigger] build_entries(bdir, xs, cs)[t].origin
                == xs[t].source_id,
        forall|t: int|
            xs.len() <= t < xs.len() + md_files(cs).len() ==> #[trigger] build_entries(
                bdir,
                xs,
                cs,
            )[t].origin == md_files(cs)[t - xs.len()].path,
        forall|t: int|
            xs.len() + md_files(cs).len() <= t < xs.len() + md_files(cs).len() + other_files(
                cs,
            ).len() ==> #[trigger] build_entries(bdir, xs, cs)[t].origin == other_files(cs)[t
                - xs.len() - md_files(cs).len()].path,
{
    lemma_external_entries_index(bdir, xs);
    lemma_markdown_entries_index(bdir, cs);
    lemma_copied_entries_index(bdir, cs);
}

/// A record map that a build pass aborted mid-way leaves behind: the fold
/// of some strict prefix of the full record sequence — records of inputs
/// processed before the failure, in order, and nothing else.
pub open spec fn partial_build(
    files: Seq<ManifestFileV>,
    bdir: Seq<char>,
    xs: Seq<ResolvedExternalV>,
    cs: Seq<ContentFileV>,
) -> bool {
    exists|k: int|
        0 <= k < build_entries(bdir, xs, cs).len() && files == upsert_all(
            Seq::empty(),
            #[trigger] build_entries(bdir, xs, cs).take(k),
        )
}

/// The facts a build needs when it aborts at the external page at index
/// `i`: the manifest so far is a strict prefix of the full record sequence.
proof fn lemma_build_abort_mid_external(
    bdir: Seq<char>,
    xs: Seq<ResolvedExternalV>,
    cs: Seq<ContentFileV>,
    i: int,
    files: Seq<ManifestFileV>,
)
    requires
        0 <= i < xs.len(),
        files == upsert_all(Seq::empty(), external_entries(bdir, xs.take(i))),
    ensures
        partial_build(files, bdir, xs, cs),
{
    lemma_external_entries_index(bdir, xs);
    lemma_external_entries_index(bdir, xs.take(i));
    let bes = build_entries(bdir, xs, cs);
    assert(bes.take(i) =~= external_entries(bdir, xs.take(i)));
    assert(files == upsert_all(Seq::empty(), bes.take(i)));
    assert(0 <= i < bes.len());
}

/// The facts a build needs when it aborts at the markdown file at index
/// `i`: the manifest so far is a strict prefix of the full record sequence,
/// and the content tree does hold a markdown file.
proof fn lemma_build_abort_facts(
    bdir: Seq<char>,
    xs: Seq<ResolvedExternalV>,
    cs: Seq<ContentFileV>,
    i: int,
    files: Seq<ManifestFileV>,
)
    requires
        0 <= i < cs.len(),
        is_markdown(cs[i].path),
        files == upsert_all(
            Seq::empty(),
            external_entries(bdir, xs) + markdown_entries(bdir, cs.take(i)),
        ),
    ensures
        partial_build(files, bdir, xs, cs),
        md_files(cs).len() > 0,
{
    lemma_build_abort_mid_markdown(bdir, xs, cs, i);
    let pre = external_entries(bdir, xs) + markdown_entries(bdir, cs.take(i));
    let bes = build_entries(bdir, xs, cs);
    assert(bes.take(pre.len() as int) == pre);
    assert(files == upsert_all(Seq::empty(), bes.take(pre.len() as int)));
    lemma_content_entries_len(bdir, cs);
    lemma_markdown_entries_prefix(bdir, cs, i);
}

proof fn lemma_markdown_entries_prefix(bdir: Seq<char>, cs: Seq<ContentFileV>, i: int)
    requires
        0 <= i <= cs.len(),
    ensures
        markdown_entries(bdir, cs.take(i)).len() <= markdown_entries(bdir, cs).len(),
        forall|t: int|
            0 <= t < markdown_entries(bdir, cs.take(i)).len() ==> #[trigger] markdown_entries(
                bdir,
                cs.take(i),
            )[t] == markdown_entries(bdir, cs)[t],
        i < cs.len() && is_markdown(cs[i].path) ==> markdown_entries(bdir, cs.take(i)).len()
            < markdown_entries(bdir, cs).len(),
    decreases cs.len() - i,
{
    if i == cs.len() {
        assert(cs.take(i) =~= cs);
    } else {
        lemma_content_step(bdir, cs, i);
        lemma_markdown_entries_prefix(bdir, cs, i + 1);
        assert forall|t: int|
            0 <= t < markdown_entries(bdir, cs.take(i)).len() implies #[trigger] markdown_entries(
            bdir,
            cs.take(i),
        )[t] == markdown_entries(bdir, cs)[t] by {
            assert(markdown_entries(bdir, cs.take(i))[t] == markdown_entries(
                bdir,
                cs.take(i + 1),
            )[t]);
        }
    }
}

/// The manifest a build holds when it aborts at the markdown file at
/// index `i`: exactly the records of the external pages and of the earlier
/// markdown files, a strict prefix of the full record sequence.
proof fn lemma_build_abort_mid_markdown(
    bdir: Seq<char>,
    xs: Seq<ResolvedExternalV>,
    cs: Seq<ContentFileV>,
    i: int,
)
    requires
        0 <= i < cs.len(),
        is_markdown(cs[i].path),
    ensures
        ({
            let pre = external_entries(bdir, xs) + markdown_entries(bdir, cs.take(i));
            &&& build_entries(bdir, xs, cs).take(pre.len() as int) == pre
            &&& 0 <= pre.len() < build_entries(bdir, xs, cs).len()
        }),
{
    let allx = external_entries(bdir, xs);
    let mdt = markdown_entries(bdir, cs.take(i));
    let mdf = markdown_entries(bdir, cs);
    let pre = allx + mdt;
    let bes = build_entries(bdir, xs, cs);
    lemma_markdown_entries_prefix(bdir, cs, i);
    assert(pre.len() <= allx.len() + mdf.len());
    assert(pre.len() < bes.len());
    assert forall|t: int| 0 <= t < pre.len() implies bes[t] == pre[t] by {
        if t < allx.len() {
            assert((allx + mdf)[t] == allx[t]);
            assert(bes[t] == (allx + mdf)[t]);
            assert(pre[t] == allx[t]);
        } else {
            assert((allx + mdf)[t] == mdf[t - allx.len()]);
            assert(bes[t] == (allx + mdf)[t]);
            assert(pre[t] == mdt[t - allx.len()]);
            assert(mdt[t - allx.len()] == mdf[t - allx.len()]);
        }
    }
    assert(bes.take(pre.len() as int) =~= pre);
}

/// No two records share an origin.
pub open spec fn distinct_origins(entries: Seq<ManifestFileV>) -> bool {
    forall|i: int, j: int|
        #![trigger entries[i], entries[j]]
        0 <= i < j < entries.len() ==> entries[i].origin != entries[j].origin
}

/// Law (build completeness): when the inputs of a build carry pairwise
/// distinct origin identifiers, folding their records into an emptied
/// manifest keeps every record: the manifest then holds exactly one record
/// per input, in recording order.
pub proof fn lemma_build_completeness(entries: Seq<ManifestFileV>)
    requires
        distinct_origins(entries),
    ensures
        upsert_all(Seq::empty(), entries) == entries,
    decreases entries.len(),
{
    if entries.len() == 0 {
        assert(upsert_all(Seq::empty(), entries) =~= entries);
    } else {
        let pre = entries.drop_last();
        let last = entries.last();
        assert forall|i: int, j: int|
            #![trigger pre[i], pre[j]]
            0 <= i < j < pre.len() implies pre[i].origin != pre[j].origin by {
            assert(pre[i] == entries[i]);
            assert(pre[j] == entries[j]);
        }
        lemma_build_completeness(pre);
        crate::manifest::lemma_find_origin(pre, last.origin);
        match crate::manifest::find_origin(pre, last.origin) {
            Some(k) => {
                assert(pre[k] == entries[k]);
                assert(entries[k].origin == entries[entries.len() - 1].origin);
                assert(false);
            },
            None => {
                assert(pre.push(last) =~= entries);
            },
        }
    }
}

/// Relies on `String::from_utf8`: it succeeds exactly on valid UTF-8 and
/// decodes those bytes, so re-encoding the result gives the input back.
#[verifier::external_body]
fn bytes_to_string(v: &Vec<u8>) -> (r: Option<String>)
    ensures
        r is Some <==> vstd::utf8::valid_utf8(v@),
        r matches Some(s) ==> vstd::utf8::encode_utf8(s@) == v@,
{
    String::from_utf8(v.clone()).ok()
}

/// A fresh vector holding exactly the bytes of `v`.
fn clone_bytes(v: &Vec<u8>) -> (r: Vec<u8>)
    ensures
        r@ == v@,
{
    let mut out: Vec<u8> = Vec::new();
    let mut i: usize = 0;
    while i < v.len()
        invariant
            i <= v@.len(),
            out@ =~= v@.take(i as int),
        decreases v@.len() - i,
    {
        out.push(v[i]);
        i += 1;
    }
    proof {
        assert(v@.take(v@.len() as int) =~= v@);
    }
    out
}

/// How a build's writes line up with its records: one write per record at
/// the same index, each write aimed at its record's built path; the first
/// `n_rendered` writes carry rendered pages, and the rest copy, byte for
/// byte, the content files they come from.
pub open spec fn writes_match(
    ws: Seq<FileWrite>,
    entries: Seq<ManifestFileV>,
    copied: Seq<ContentFileV>,
    n_rendered: int,
) -> bool {
    &&& ws.len() == entries.len()
    &&& 0 <= n_rendered <= ws.len()
    &&& copied.len() == ws.len() - n_rendered
    &&& (forall|t: int| 0 <= t < ws.len() ==> #[trigger] ws[t].path@ == entries[t].built_filepath)
    &&& (forall|t: int| 0 <= t < n_rendered ==> #[trigger] ws[t].content is Rendered)
    &&& (forall|t: int|
        n_rendered <= t < ws.len() ==> (#[trigger] ws[t].content matches FileContent::Copied(b)
            && b@ == copied[t - n_rendered].content))
}

proof fn lemma_writes_match_push_rendered(
    ws: Seq<FileWrite>,
    w: FileWrite,
    entries: Seq<ManifestFileV>,
    e: ManifestFileV,
)
    requires
        writes_match(ws, entries, Seq::empty(), entries.len() as int),
        w.path@ == e.built_filepath,
        w.content is Rendered,
    ensures
        writes_match(ws.push(w), entries.push(e), Seq::empty(), entries.len() as int + 1),
{
    let ws1 = ws.push(w);
    let es1 = entries.push(e);
    assert forall|t: int| 0 <= t < ws1.len() implies #[trigger] ws1[t].path@
        == es1[t].built_filepath by {
        if t < ws.len() {
            assert(ws1[t] == ws[t]);
            assert(es1[t] == entries[t]);
        }
    }
    assert forall|t: int| 0 <= t < entries.len() + 1 implies #[trigger] ws1[t].content
        is Rendered by {
        if t < ws.len() {
            assert(ws1[t] == ws[t]);
        }
    }
}

proof fn lemma_writes_match_push_copied(
    ws: Seq<FileWrite>,
    w: FileWrite,
    entries: Seq<ManifestFileV>,
    e: ManifestFileV,
    copied: Seq<ContentFileV>,
    c: ContentFileV,
    n_rendered: int,
)
    requires
        writes_match(ws, entries, copied, n_rendered),
        w.path@ == e.built_filepath,
        w.content matches FileContent::Copied(b) && b@ == c.content,
    ensures
        writes_match(ws.push(w), entries.push(e), copied.push(c), n_rendered),
{
    let ws1 = ws.push(w);
    let es1 = entries.push(e);
    let cp1 = copied.push(c);
    assert forall|t: int| 0 <= t < ws1.len() implies #[trigger] ws1[t].path@
        == es1[t].built_filepath by {
        if t < ws.len() {
            assert(ws1[t] == ws[t]);
            assert(es1[t] == entries[t]);
        }
    }
    assert forall|t: int| 0 <= t < n_rendered implies #[trigger] ws1[t].content is Rendered by {
        assert(ws1[t] == ws[t]);
    }
    assert forall|t: int|
        n_rendered <= t < ws1.len() implies (#[trigger] ws1[t].content
        matches FileContent::Copied(b) && b@ == cp1[t - n_rendered].content) by {
        if t < ws.len() {
            assert(ws1[t] == ws[t]);
            assert(cp1[t - n_rendered] == copied[t - n_rendered]);
        } else {
            assert(ws1[t] == w);
            assert(cp1[t - n_rendered] == c);
        }
    }
}

impl SiteManifest {
    /// One full build pass over the given inputs. The record map is reset
    /// and repopulated with exactly one record per input; the returned
    /// writes are what the caller must place under the output tree, in
    /// recording order. Any rendering failure, or markdown content that is
    /// not valid text, aborts the build with the map holding only the
    /// records of the inputs processed before the failure, and the caller
    /// persists nothing.
    #[verifier::rlimit(100)]
    pub fn build<R: Renderer>(
        &mut self,
        cfg: &SiteConfig,
        externals: &Vec<ResolvedExternal>,
        contents: &Vec<ContentFile>,
    ) -> (r: Result<Vec<FileWrite>, SiteError>)
        ensures
            final(self).environment == old(self).environment,
            final(self).build_directory@ == old(self).build_directory@,
            final(self).wf(),
            r matches Err(e) ==> (e is Render || e is Filesystem),
            r matches Err(e) && e is Filesystem ==> (exists|k: int|
                0 <= k < contents_view(contents@).len() && is_markdown(
                    #[trigger] contents_view(contents@)[k].path,
                ) && !vstd::utf8::valid_utf8(contents_view(contents@)[k].content)),
            externals@.len() == 0 && md_files(contents_view(contents@)).len() == 0 ==> r is Ok,
            r is Err ==> partial_build(
                final(self).files_view(),
                old(self).build_directory@,
                externals_view(externals@),
                contents_view(contents@),
            ),
            r matches Ok(ws) ==> ({
                let bdir = old(self).build_directory@;
                let xs = externals_view(externals@);
                let cs = contents_view(contents@);
                let entries = build_entries(bdir, xs, cs);
                &&& final(self).files_view() == upsert_all(Seq::empty(), entries)
                &&& writes_match(
                    ws@,
                    entries,
                    other_files(cs),
                    (external_entries(bdir, xs).len() + markdown_entries(bdir, cs).len()) as int,
                )
            }),
    {
        self.clean();
        let ghost bdir = self.build_directory@;
        let ghost xs = externals_view(externals@);
        let ghost cs = contents_view(contents@);
        let mut writes: Vec<FileWrite> = Vec::new();
        proof {
            assert(xs.take(0) =~= Seq::<ResolvedExternalV>::empty());
            assert(external_entries(bdir, xs.take(0)) == Seq::<ManifestFileV>::empty());
            assert(writes@ =~= Seq::<FileWrite>::empty());
        }
        let mut i: usize = 0;
        while i < externals.len()
            invariant
                i <= externals@.len(),
                self.environment == old(self).environment,
                self.build_directory@ == old(self).build_directory@,
                bdir == old(self).build_directory@,
                xs == externals_view(externals@),
                xs.len() == externals@.len(),
                cs == contents_view(contents@),
                self.wf(),
                self.files_view() == upsert_all(
                    Seq::empty(),
                    external_entries(bdir, xs.take(i as int)),
                ),
                external_entries(bdir, xs.take(i as int)).len() == i as int,
                writes_match(
                    writes@,
                    external_entries(bdir, xs.take(i as int)),
                    Seq::<ContentFileV>::empty(),
                    i as int,
                ),
            decreases externals@.len() - i,
        {
            let x = &externals[i];
            let content = x.content.clone();
            let rendered = match R::render_content(cfg, self.environment, content, "devlog") {
                Ok(s) => s,
                Err(e) => {
                    proof {
                        lemma_build_abort_mid_external(bdir, xs, cs, i as int, self.files_view());
                        assert(partial_build(
                            self.files_view(),
                            old(self).build_directory@,
                            externals_view(externals@),
                            contents_view(contents@),
                        ));
                    }
                    return Err(SiteError::Render(e.message));
                },
            };
            let destination = x.page.local_path.clone();
            let built = join_path(self.build_directory.as_str(), destination.as_str());
            let origin = x.page.source_url.as_str().to_owned();
            let ghost pre_entries = external_entries(bdir, xs.take(i as int));
            let ghost e = external_entry(bdir, xs[i as int]);
            proof {
                assert(xs[i as int] == externals@[i as int]@);
            }
            let ghost builtv = built@;
            self.record(origin, x.origin_modified, built.clone(), destination);
            let ghost ws0 = writes@;
            writes.push(FileWrite { path: built, content: FileContent::Rendered(rendered) });
            proof {
                lemma_external_entries_step(bdir, xs, i as int);
                lemma_upsert_all_push(Seq::empty(), pre_entries, e);
                lemma_external_entries_len(bdir, xs.take(i as int + 1));
                assert(self.files_view() == upsert(upsert_all(Seq::empty(), pre_entries), e));
                assert(builtv == e.built_filepath);
                let w = writes@[ws0.len() as int];
                assert(ws0.push(w) == writes@);
                lemma_writes_match_push_rendered(ws0, w, pre_entries, e);
            }
            i += 1;
        }
        let ghost all_ext = external_entries(bdir, xs);
        proof {
            assert(xs.take(externals@.len() as int) =~= xs);
            lemma_external_entries_len(bdir, xs);
            assert(cs.take(0) =~= Seq::<ContentFileV>::empty());
            assert(markdown_entries(bdir, cs.take(0)) == Seq::<ManifestFileV>::empty());
            assert(all_ext + markdown_entries(bdir, cs.take(0)) =~= all_ext);
        }
        let mut i2: usize = 0;
        while i2 < contents.len()
            invariant
                i2 <= contents@.len(),
                self.environment == old(self).environment,
                self.build_directory@ == old(self).build_directory@,
                bdir == old(self).build_directory@,
                xs == externals_view(externals@),
                cs == contents_view(contents@),
                cs.len() == contents@.len(),
                all_ext == external_entries(bdir, xs),
                self.wf(),
                self.files_view() == upsert_all(
                    Seq::empty(),
                    all_ext + markdown_entries(bdir, cs.take(i2 as int)),
                ),
                writes_match(
                    writes@,
                    all_ext + markdown_entries(bdir, cs.take(i2 as int)),
                    Seq::<ContentFileV>::empty(),
                    (all_ext.len() + markdown_entries(bdir, cs.take(i2 as int)).len()) as int,
                ),
            decreases contents@.len() - i2,
        {
            let c = &contents[i2];
            proof {
                assert(cs[i2 as int] == contents@[i2 as int]@);
            }
            if has_markdown_extension(c.path.as_str()) {
                let text = match bytes_to_string(&c.content) {
                    Some(t) => t,
                    None => {
                        proof {
                            assert(is_markdown(contents_view(contents@)[i2 as int].path)
                                && !vstd::utf8::valid_utf8(
                                contents_view(contents@)[i2 as int].content,
                            ));
                            lemma_build_abort_facts(bdir, xs, cs, i2 as int, self.files_view());
                            assert(partial_build(
                                self.files_view(),
                                old(self).build_directory@,
                                externals_view(externals@),
                                contents_view(contents@),
                            ));
                        }
                        return Err(
                            SiteError::Filesystem(
                                String::from_str("markdown content is not valid text"),
                            ),
                        );
                    },
                };
                let rendered = match R::render_content(cfg, self.environment, text, "") {
                    Ok(s) => s,
                    Err(e) => {
                        proof {
                            lemma_build_abort_facts(bdir, xs, cs, i2 as int, self.files_view());
                            assert(partial_build(
                                self.files_view(),
                                old(self).build_directory@,
                                externals_view(externals@),
                                contents_view(contents@),
                            ));
                        }
                        return Err(SiteError::Render(e.message));
                    },
                };
                let destination = pop_parent_replace_ext(c.path.as_str(), Some("html"));
                let built = join_path(self.build_directory.as_str(), destination.as_str());
                let origin = c.path.clone();
                let ghost pre_entries = all_ext + markdown_entries(bdir, cs.take(i2 as int));
                let ghost e = markdown_entry(bdir, cs[i2 as int]);
                let ghost builtv = built@;
                self.record(origin, c.origin_modified, built.clone(), destination);
                let ghost ws0 = writes@;
                writes.push(FileWrite { path: built, content: FileContent::Rendered(rendered) });
                proof {
                    lemma_content_step(bdir, cs, i2 as int);
                    lemma_upsert_all_push(Seq::empty(), pre_entries, e);
                    assert(self.files_view() == upsert(upsert_all(Seq::empty(), pre_entries), e));
                    assert(all_ext + markdown_entries(bdir, cs.take(i2 as int + 1))
                        =~= pre_entries.push(e));
                    assert(builtv == e.built_filepath);
                    let w = writes@[ws0.len() as int];
                    assert(ws0.push(w) == writes@);
                    lemma_writes_match_push_rendered(ws0, w, pre_entries, e);
                }
            } else {
                proof {
                    lemma_content_step(bdir, cs, i2 as int);
                }
            }
            i2 += 1;
        }
        let ghost all_md = markdown_entries(bdir, cs);
        proof {
            assert(cs.take(contents@.len() as int) =~= cs);
            lemma_content_entries_len(bdir, cs);
            assert(copied_entries(bdir, cs.take(0)) == Seq::<ManifestFileV>::empty());
            assert(other_files(cs.take(0)) == Seq::<ContentFileV>::empty());
            assert(all_ext + all_md + copied_entries(bdir, cs.take(0)) =~= all_ext + all_md);
        }
        let mut i3: usize = 0;
        while i3 < contents.len()
            invariant
                i3 <= contents@.len(),
                self.environment == old(self).environment,
                self.build_directory@ == old(self).build_directory@,
                bdir == old(self).build_directory@,
                xs == externals_view(externals@),
                cs == contents_view(contents@),
                cs.len() == contents@.len(),
                all_ext == external_entries(bdir, xs),
                all_md == markdown_entries(bdir, cs),
                self.wf(),
                self.files_view() == upsert_all(
                    Seq::empty(),
                    all_ext + all_md + copied_entries(bdir, cs.take(i3 as int)),
                ),
                writes_match(
                    writes@,
                    all_ext + all_md + copied_entries(bdir, cs.take(i3 as int)),
                    other_files(cs.take(i3 as int)),
                    (all_ext.len() + all_md.len()) as int,
                ),
            decreases contents@.len() - i3,
        {
            let c = &contents[i3];
            proof {
                assert(cs[i3 as int] == contents@[i3 as int]@);
            }
            if !has_markdown_extension(c.path.as_str()) {
                let destination = pop_parent_replace_ext(c.path.as_str(), None);
                let built = join_path(self.build_directory.as_str(), destination.as_str());
                let origin = c.path.clone();
                let bytes = clone_bytes(&c.content);
                let ghost pre_entries = all_ext + all_md + copied_entries(bdir, cs.take(i3 as int));
                let ghost e = copied_entry(bdir, cs[i3 as int]);
                let ghost builtv = built@;
                let ghost bytesv = bytes@;
                self.record(origin, c.origin_modified, built.clone(), destination);
                let ghost ws0 = writes@;
                writes.push(FileWrite { path: built, content: FileContent::Copied(bytes) });
                proof {
                    lemma_content_step(bdir, cs, i3 as int);
                    lemma_upsert_all_push(Seq::empty(), pre_entries, e);
                    assert(self.files_view() == upsert(upsert_all(Seq::empty(), pre_entries), e));
                    assert(all_ext + all_md + copied_entries(bdir, cs.take(i3 as int + 1))
                        =~= pre_entries.push(e));
                    assert(builtv == e.built_filepath);
                    assert(bytesv == cs[i3 as int].content);
                    let w = writes@[ws0.len() as int];
                    assert(ws0.push(w) == writes@);
                    lemma_writes_match_push_copied(
                        ws0,
                        w,
                        pre_entries,
                        e,
                        other_files(cs.take(i3 as int)),
                        cs[i3 as int],
                        (all_ext.len() + all_md.len()) as int,
                    );
                }
            } else {
                proof {
                    lemma_content_step(bdir, cs, i3 as int);
                }
            }
            i3 += 1;
        }
        proof {
            assert(cs.take(contents@.len() as int) =~= cs);
            lemma_external_entries_len(bdir, xs);
            lemma_content_entries_len(bdir, cs);
            let entries = build_entries(bdir, xs, cs);
            assert(all_ext + all_md + copied_entries(bdir, cs) == entries);
            assert(self.files_view() == upsert_all(Seq::empty(), entries));
            assert(writes_match(
                writes@,
                entries,
                other_files(cs),
                (external_entries(bdir, xs).len() + markdown_entries(bdir, cs).len()) as int,
            ));
        }
        Ok(writes)
    }
}

} // verus!
