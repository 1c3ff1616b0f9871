//! Importing a glTF asset into a project: which requests are refused, which
//! files the asset references, and where each referenced file is copied.

use crate::paths::{
    file_name_model, join_model, lemma_lex_antisymmetric, lemma_lex_reflexive, lemma_lex_total,
    lemma_lex_transitive, lemma_names_push, lex_le, lex_lt, lower_ascii, name_extension, name_stem,
    names_of, parent_model, parse_model, path_exists, push_model, disk_answered, exists_on_disk, starts_with_model, strip_prefix_model,
    string_eq, string_lex_le, to_ascii_lowercase, ContentPath, PathModel, file_extension, file_stem,
};
use crate::text::{contains_seq, contains_str, has_prefix, starts_with, string_from, trim_whitespace, trim_ws};
use vstd::prelude::*;

verus! {

/// The error that `gltf` reports for a document it cannot read.
#[verifier::external_type_specification]
#[verifier::external_body]
pub struct ExGltfError(gltf::Error);

/// Why an import was refused.
#[derive(Debug)]
pub enum ImportAssetError {
    UnsupportedExtension { path: ContentPath },
    MissingSource { path: ContentPath },
    Parse { path: ContentPath, source: gltf::Error },
    DestinationOutside { destination: ContentPath },
    DependencyEscapes { uri: String },
    UnsupportedReference { uri: String },
    MalformedUri { uri: String },
    MissingDependency { uri: String, resolved: ContentPath },
}

/// The unsigned little-endian number in `b[at..at + 4]`.
pub open spec fn le_u32_at(b: Seq<u8>, at: int) -> int {
    b[at] + 256 * b[at + 1] + 65536 * b[at + 2] + 16777216 * b[at + 3]
}

/// Binary glTF whose header gives a total length shorter than the header
/// itself; `gltf` subtracts the header size from that length unchecked.
pub open spec fn glb_length_underflows(b: Seq<u8>) -> bool {
    &&& b.len() >= 12
    &&& b[0] == 0x67u8 && b[1] == 0x6cu8 && b[2] == 0x54u8 && b[3] == 0x46u8
    &&& le_u32_at(b, 8) < 12
}

/// Whether `gltf` can be handed `bytes`: see `glb_length_underflows`.
pub fn gltf_header_is_sound(bytes: &[u8]) -> (r: bool)
    ensures
        r == !glb_length_underflows(bytes@),
{
    if bytes.len() < 12 {
        return true;
    }
    if !(bytes[0] == 0x67u8 && bytes[1] == 0x6cu8 && bytes[2] == 0x54u8 && bytes[3] == 0x46u8) {
        return true;
    }
    let length: u64 = bytes[8] as u64 + 256 * (bytes[9] as u64) + 65536 * (bytes[10] as u64) + 16777216 * (
    bytes[11] as u64);
    length >= 12
}

/// An image of a glTF document as `gltf` parsed it: its `uri`, whether its
/// data lies in a buffer view, and whether it names a MIME type.
pub struct ImageReference {
    pub uri: Option<String>,
    pub in_buffer_view: bool,
    pub has_mime_type: bool,
}

/// The `uri`s of the buffers of a document, as plain values.
pub open spec fn buffer_views(v: Seq<Option<String>>) -> Seq<Option<Seq<char>>> {
    v.map_values(|o: Option<String>| opt_string_view(o))
}

/// The images of a document, as plain values: whether the data lies in a
/// buffer view, the `uri`, and whether a MIME type is named.
pub open spec fn image_views(v: Seq<ImageReference>) -> Seq<(bool, Option<Seq<char>>, bool)> {
    v.map_values(|i: ImageReference| (i.in_buffer_view, opt_string_view(i.uri), i.has_mime_type))
}

/// The meshes of a document as plain values: for each primitive, the
/// accessor index its `POSITION` attribute names, if any.
pub open spec fn mesh_views(v: Seq<Vec<Option<usize>>>) -> Seq<Seq<Option<usize>>> {
    v.map_values(|m: Vec<Option<usize>>| m@)
}

/// The number of accessors of the glTF document in `bytes`, and for each
/// mesh and each of its primitives the accessor its `POSITION` attribute
/// names, as `gltf` reads the document before validating it (see
/// `read_gltf_position_accessors`); `None` where that reading fails.
pub uninterp spec fn gltf_position_accessors(bytes: Seq<u8>) -> Option<(usize, Seq<Seq<Option<usize>>>)>;

/// Parses `bytes` with `gltf::Gltf::from_slice_without_validation` and
/// hands out, from the parsed JSON, the number of accessors and, for each
/// mesh and each of its primitives in order, the index of the accessor that
/// the `POSITION` attribute names. The contract names what comes back
/// (`gltf_position_accessors`) and states no more of it.
#[verifier::external_body]
fn read_gltf_position_accessors(bytes: &[u8]) -> (r: Result<(usize, Vec<Vec<Option<usize>>>), gltf::Error>)
    requires
        !glb_length_underflows(bytes@),
    ensures
        match r {
            Ok((count, meshes)) => gltf_position_accessors(bytes@) == Some((count, mesh_views(meshes@))),
            Err(_) => gltf_position_accessors(bytes@) is None,
        },
{
    let document = gltf::Gltf::from_slice_without_validation(bytes)?;
    let root = document.as_json();
    let position = gltf::json::validation::Checked::Valid(gltf::json::mesh::Semantic::Positions);
    let meshes = root
        .meshes
        .iter()
        .map(|m| m.primitives.iter().map(|p| p.attributes.get(&position).map(|i| i.value())).collect())
        .collect();
    Ok((root.accessors.len(), meshes))
}

/// Whether the accessor index `o` lies past the last of `count` accessors.
pub open spec fn past_last(o: Option<usize>, count: usize) -> bool {
    match o {
        Some(i) => i >= count,
        None => false,
    }
}

/// Whether some primitive names as its `POSITION` an accessor past the
/// last one. Validating such a document, `gltf` indexes its accessors with
/// that number unchecked (the primitive check of `gltf-json`) and panics.
pub open spec fn position_out_of_bounds(count: usize, meshes: Seq<Seq<Option<usize>>>) -> bool {
    exists|m: int, k: int|
        0 <= m < meshes.len() && 0 <= k < meshes[m].len() && past_last(#[trigger] meshes[m][k], count)
}

/// Whether `gltf` panics validating the document in `bytes`.
pub open spec fn gltf_validation_panics(bytes: Seq<u8>) -> bool {
    match gltf_position_accessors(bytes) {
        Some((count, meshes)) => position_out_of_bounds(count, meshes),
        None => false,
    }
}

/// Whether asking an image for its source panics (`Image::source` unwraps
/// the MIME type of an image in a buffer view, and the `uri` of one that is
/// not in a buffer view): some image lies in a buffer view and names no MIME
/// type, or lies in none and has no `uri`.
pub open spec fn image_source_panics(images: Seq<(bool, Option<Seq<char>>, bool)>) -> bool {
    exists|k: int|
        0 <= k < images.len() && ({
            let im = #[trigger] images[k];
            (im.0 && !im.2) || (!im.0 && im.1 is None)
        })
}

/// Whether reading the sources of the images of the document in `bytes`,
/// once `gltf` has accepted it, panics.
pub open spec fn gltf_sources_panic(bytes: Seq<u8>) -> bool {
    match gltf_references(bytes) {
        Some((_, images)) => image_source_panics(images),
        None => false,
    }
}

/// The buffers and images of the glTF document in `bytes` as `gltf` reads
/// them (see `read_gltf_references`); `None` where `gltf` refuses the bytes.
pub uninterp spec fn gltf_references(bytes: Seq<u8>) -> Option<(Seq<Option<Seq<char>>>, Seq<(bool, Option<Seq<char>>, bool)>)>;

/// Parses `bytes` with `gltf::Gltf::from_slice` and hands out, from the
/// parsed JSON, each buffer's `uri` and each image's `uri` with whether it
/// has a `bufferView` and a `mimeType`, in document order. The contract
/// names what comes back (`gltf_references`) and states no more of it.
/// `from_slice` reads the document as `from_slice_without_validation` does
/// and then validates it; the inputs on which validating panics are left
/// out.
#[verifier::external_body]
fn read_gltf_references(bytes: &[u8]) -> (r: Result<(Vec<Option<String>>, Vec<ImageReference>), gltf::Error>)
    requires
        !glb_length_underflows(bytes@),
        !gltf_validation_panics(bytes@),
    ensures
        match r {
            Ok((buffers, images)) => gltf_references(bytes@) == Some((buffer_views(buffers@), image_views(images@))),
            Err(_) => gltf_references(bytes@) is None,
        },
{
    let document = gltf::Gltf::from_slice(bytes)?;
    let root = document.as_json();
    let buffers = root.buffers.iter().map(|b| b.uri.clone()).collect();
    let images = root
        .images
        .iter()
        .map(|i| ImageReference {
            uri: i.uri.clone(),
            in_buffer_view: i.buffer_view.is_some(),
            has_mime_type: i.mime_type.is_some(),
        })
        .collect();
    Ok((buffers, images))
}

/// Whether some primitive's `POSITION` accessor lies past the last
/// accessor; see `position_out_of_bounds`.
pub fn positions_out_of_bounds(count: usize, meshes: &Vec<Vec<Option<usize>>>) -> (r: bool)
    ensures
        r == position_out_of_bounds(count, mesh_views(meshes@)),
{
    let ghost mv = mesh_views(meshes@);
    let mut m: usize = 0;
    while m < meshes.len()
        invariant
            m <= meshes.len(),
            mv == mesh_views(meshes@),
            forall|a: int, k: int|
                0 <= a < m && 0 <= k < mv[a].len() ==> !past_last(#[trigger] mv[a][k], count),
        decreases meshes.len() - m,
    {
        let primitives = &meshes[m];
        proof {
            assert(mv[m as int] == primitives@);
        }
        let mut k: usize = 0;
        while k < primitives.len()
            invariant
                m < meshes.len(),
                k <= primitives.len(),
                mv == mesh_views(meshes@),
                mv[m as int] == primitives@,
                forall|a: int, j: int|
                    0 <= a < m && 0 <= j < mv[a].len() ==> !past_last(#[trigger] mv[a][j], count),
                forall|j: int| 0 <= j < k ==> !past_last(#[trigger] mv[m as int][j], count),
            decreases primitives.len() - k,
        {
            match primitives[k] {
                Some(i) => {
                    if i >= count {
                        proof {
                            assert(mv[m as int][k as int] == Some(i));
                        }
                        return true;
                    }
                },
                None => {},
            }
            k = k + 1;
        }
        m = m + 1;
    }
    false
}

/// Whether asking some image for its source would panic; see
/// `image_source_panics`.
pub fn image_sources_unreadable(images: &Vec<ImageReference>) -> (r: bool)
    ensures
        r == image_source_panics(image_views(images@)),
{
    let ghost iv = image_views(images@);
    let mut k: usize = 0;
    while k < images.len()
        invariant
            k <= images.len(),
            iv == image_views(images@),
            forall|j: int|
                0 <= j < k ==> !({
                    let im = #[trigger] iv[j];
                    (im.0 && !im.2) || (!im.0 && im.1 is None)
                }),
        decreases images.len() - k,
    {
        let image = &images[k];
        let bad = if image.in_buffer_view {
            !image.has_mime_type
        } else {
            image.uri.is_none()
        };
        if bad {
            proof {
                assert(iv[k as int] == (image.in_buffer_view, opt_string_view(image.uri), image.has_mime_type));
            }
            return true;
        }
        proof {
            assert(iv[k as int] == (image.in_buffer_view, opt_string_view(image.uri), image.has_mime_type));
        }
        k = k + 1;
    }
    false
}

/// The URIs that the buffers give, in order.
pub open spec fn buffer_uris(b: Seq<Option<Seq<char>>>) -> Seq<Seq<char>>
    decreases b.len(),
{
    if b.len() == 0 {
        seq![]
    } else {
        match b.last() {
            Some(u) => buffer_uris(b.drop_last()).push(u),
            None => buffer_uris(b.drop_last()),
        }
    }
}

/// The URIs of the images whose data is not in a buffer view, in order.
pub open spec fn image_uris(i: Seq<(bool, Option<Seq<char>>, bool)>) -> Seq<Seq<char>>
    decreases i.len(),
{
    if i.len() == 0 {
        seq![]
    } else {
        match i.last() {
            (false, Some(u), _) => image_uris(i.drop_last()).push(u),
            _ => image_uris(i.drop_last()),
        }
    }
}

/// The external references of the glTF document in `bytes`: the URIs of
/// its buffers, then those of its images that are not stored in a buffer
/// view, in document order; `None` where `gltf` refuses the bytes.
pub open spec fn gltf_reference_uris(bytes: Seq<u8>) -> Option<Seq<Seq<char>>> {
    match gltf_references(bytes) {
        Some((b, i)) => Some(buffer_uris(b) + image_uris(i)),
        None => None,
    }
}

/// The external references among a document's buffers and images: each
/// buffer's `uri`, then the `uri` of each image not stored in a buffer
/// view.
pub fn external_uris(buffers: &Vec<Option<String>>, images: &Vec<ImageReference>) -> (r: Vec<String>)
    ensures
        names_of(r@) == buffer_uris(buffer_views(buffers@)) + image_uris(image_views(images@)),
{
    let mut out: Vec<String> = Vec::new();
    let mut i: usize = 0;
    proof {
        assert(buffer_views(buffers@).take(0) =~= Seq::<Option<Seq<char>>>::empty());
        assert(names_of(out@) =~= Seq::<Seq<char>>::empty());
    }
    while i < buffers.len()
        invariant
            i <= buffers.len(),
            names_of(out@) == buffer_uris(buffer_views(buffers@).take(i as int)),
        decreases buffers.len() - i,
    {
        proof {
            assert(buffer_views(buffers@).take(i + 1).drop_last() =~= buffer_views(buffers@).take(i as int));
        }
        match &buffers[i] {
            Some(u) => {
                let ghost before = out@;
                out.push(u.clone());
                proof {
                    lemma_names_push(before, *u);
                }
            },
            None => {},
        }
        i = i + 1;
    }
    proof {
        assert(buffer_views(buffers@).take(buffers.len() as int) =~= buffer_views(buffers@));
    }
    let ghost head = names_of(out@);
    let mut j: usize = 0;
    proof {
        assert(image_views(images@).take(0) =~= Seq::<(bool, Option<Seq<char>>, bool)>::empty());
        assert(head + Seq::<Seq<char>>::empty() =~= head);
    }
    while j < images.len()
        invariant
            j <= images.len(),
            head == buffer_uris(buffer_views(buffers@)),
            names_of(out@) == head + image_uris(image_views(images@).take(j as int)),
        decreases images.len() - j,
    {
        proof {
            assert(image_views(images@).take(j + 1).drop_last() =~= image_views(images@).take(j as int));
        }
        let image = &images[j];
        if !image.in_buffer_view {
            match &image.uri {
                Some(u) => {
                    let ghost before = out@;
                    out.push(u.clone());
                    proof {
                        lemma_names_push(before, *u);
                        assert(head + image_uris(image_views(images@).take(j as int)).push(u@) =~= (head
                            + image_uris(image_views(images@).take(j as int))).push(u@));
                    }
                },
                None => {},
            }
        }
        j = j + 1;
    }
    proof {
        assert(image_views(images@).take(images.len() as int) =~= image_views(images@));
    }
    out
}

/// Strictly increasing in the order of `String`.
pub open spec fn strictly_sorted(s: Seq<Seq<char>>) -> bool {
    forall|i: int, j: int| 0 <= i < j < s.len() ==> lex_lt(#[trigger] s[i], #[trigger] s[j])
}

proof fn lemma_lex_lt_transitive(a: Seq<char>, b: Seq<char>, c: Seq<char>)
    requires
        lex_lt(a, b),
        lex_lt(b, c),
    ensures
        lex_lt(a, c),
{
    lemma_lex_transitive(a, b, c);
    if a == c {
        lemma_lex_antisymmetric(b, c);
    }
}

/// Adds `x` to the sorted set held in `v`.
fn insert_sorted(v: &mut Vec<String>, x: String)
    requires
        strictly_sorted(names_of(old(v)@)),
    ensures
        strictly_sorted(names_of(final(v)@)),
        forall|s: Seq<char>| #[trigger]
            names_of(final(v)@).contains(s) <==> (names_of(old(v)@).contains(s) || s == x@),
{
    let ghost before = names_of(v@);
    let mut i: usize = 0;
    while i < v.len() && !string_lex_le(x.as_str(), v[i].as_str())
        invariant
            v@ == old(v)@,
            before == names_of(v@),
            strictly_sorted(before),
            i <= v.len(),
            forall|j: int| 0 <= j < i ==> lex_lt(#[trigger] before[j], x@),
        decreases v.len() - i,
    {
        proof {
            lemma_lex_total(x@, v@[i as int]@);
            lemma_lex_reflexive(x@);
            assert(before[i as int] == v@[i as int]@);
        }
        i = i + 1;
    }
    if i < v.len() && string_eq(&v[i], &x) {
        proof {
            assert(before[i as int] == x@);
            assert forall|s: Seq<char>| #[trigger]
                names_of(v@).contains(s) <==> (before.contains(s) || s == x@) by {
                if s == x@ {
                    assert(before[i as int] == s);
                }
            }
        }
        return;
    }
    let ghost xv = x@;
    v.insert(i, x);
    proof {
        let after = names_of(v@);
        assert(after =~= before.insert(i as int, xv));
        if i < before.len() {
            assert(before[i as int] == old(v)@[i as int]@);
            assert(lex_le(xv, before[i as int]));
            assert(xv != before[i as int]);
        }
        assert forall|a: int, b: int| 0 <= a < b < after.len() implies lex_lt(#[trigger] after[a], #[trigger] after[b]) by {
            if a < i && b < i {
                assert(after[a] == before[a] && after[b] == before[b]);
            } else if a < i && b == i {
                assert(after[a] == before[a]);
            } else if a < i && b > i {
                assert(after[a] == before[a] && after[b] == before[b - 1]);
                if b - 1 == i {
                    lemma_lex_lt_transitive(before[a], xv, before[b - 1]);
                } else {
                    lemma_lex_lt_transitive(xv, before[i as int], before[b - 1]);
                    lemma_lex_lt_transitive(before[a], xv, before[b - 1]);
                }
            } else if a == i {
                assert(after[b] == before[b - 1]);
                if b - 1 > i {
                    lemma_lex_lt_transitive(xv, before[i as int], before[b - 1]);
                }
            } else {
                assert(after[a] == before[a - 1] && after[b] == before[b - 1]);
            }
        }
        assert forall|s: Seq<char>| #[trigger] after.contains(s) <==> (before.contains(s) || s == xv) by {
            if after.contains(s) {
                let k = choose|k: int| 0 <= k < after.len() && after[k] == s;
                if k > i {
                    assert(before[k - 1] == s);
                } else if k < i {
                    assert(before[k] == s);
                }
            }
            if before.contains(s) {
                let k = choose|k: int| 0 <= k < before.len() && before[k] == s;
                if k >= i {
                    assert(after[k + 1] == s);
                } else {
                    assert(after[k] == s);
                }
            }
            if s == xv {
                assert(after[i as int] == s);
            }
        }
    }
}

/// Whether `s` is one of the files that a document with references `uris`
/// needs: a reference, trimmed, that is not inline `data:`.
pub open spec fn is_dependency_of(uris: Seq<Seq<char>>, s: Seq<char>) -> bool {
    exists|i: int| 0 <= i < uris.len() && s == trim_ws(#[trigger] uris[i]) && !has_prefix(s, "data:"@)
}

/// The files that references `uris` need, as a sorted set.
pub fn dependency_set(uris: &Vec<String>) -> (r: Vec<String>)
    ensures
        strictly_sorted(names_of(r@)),
        forall|s: Seq<char>| #[trigger] names_of(r@).contains(s) <==> is_dependency_of(names_of(uris@), s),
{
    let mut out: Vec<String> = Vec::new();
    let mut i: usize = 0;
    proof {
        assert(names_of(out@) =~= Seq::<Seq<char>>::empty());
    }
    while i < uris.len()
        invariant
            i <= uris.len(),
            strictly_sorted(names_of(out@)),
            forall|s: Seq<char>| #[trigger]
                names_of(out@).contains(s) <==> is_dependency_of(names_of(uris@).take(i as int), s),
        decreases uris.len() - i,
    {
        let trimmed = trim_whitespace(uris[i].as_str());
        let skip = starts_with(trimmed.as_str(), "data:");
        let ghost prev = names_of(out@);
        let ghost tv = trimmed@;
        if !skip {
            insert_sorted(&mut out, trimmed);
        }
        proof {
            let all = names_of(uris@);
            assert(all[i as int] == uris@[i as int]@);
            assert forall|s: Seq<char>| #[trigger]
                names_of(out@).contains(s) <==> is_dependency_of(all.take(i + 1), s) by {
                if is_dependency_of(all.take(i + 1), s) {
                    let k = choose|k: int|
                        0 <= k < all.take(i + 1).len() && s == trim_ws(#[trigger] all.take(i + 1)[k]) && !has_prefix(
                            s,
                            "data:"@,
                        );
                    if k < i {
                        assert(all.take(i as int)[k] == all.take(i + 1)[k]);
                        assert(is_dependency_of(all.take(i as int), s));
                    }
                }
                if is_dependency_of(all.take(i as int), s) {
                    let k = choose|k: int|
                        0 <= k < all.take(i as int).len() && s == trim_ws(#[trigger] all.take(i as int)[k])
                            && !has_prefix(s, "data:"@);
                    assert(all.take(i + 1)[k] == all.take(i as int)[k]);
                }
                if !skip && s == tv {
                    assert(all.take(i + 1)[i as int] == all[i as int]);
                }
            }
        }
        i = i + 1;
    }
    proof {
        assert(names_of(uris@).take(uris@.len() as int) =~= names_of(uris@));
    }
    out
}

/// What listing the files a glTF document references gives, for a document
/// on which `gltf` does not panic: see `collect_gltf_dependencies`.
pub open spec fn dependencies_listed(bytes: Seq<u8>, path: PathModel, r: Result<Vec<String>, ImportAssetError>) -> bool {
    match gltf_reference_uris(bytes) {
        Some(uris) => match r {
            Ok(deps) => {
                &&& strictly_sorted(names_of(deps@))
                &&& forall|s: Seq<char>| #[trigger] names_of(deps@).contains(s) <==> is_dependency_of(uris, s)
            },
            Err(_) => false,
        },
        None => match r {
            Err(ImportAssetError::Parse { path: p, .. }) => p@ == path,
            _ => false,
        },
    }
}

/// Whether `gltf`, or reading the sources of the images it found, panics
/// on `bytes`: a binary header whose length underflows, a `POSITION`
/// accessor past the last, or an image whose source cannot be read.
pub open spec fn gltf_panics(bytes: Seq<u8>) -> bool {
    glb_length_underflows(bytes) || gltf_validation_panics(bytes) || gltf_sources_panic(bytes)
}

/// The files that the glTF document in `bytes` references, checking first
/// for the documents on which `gltf` panics: `None` for those (see
/// `gltf_panics`); else what `collect_gltf_dependencies` gives.
pub fn gltf_dependencies(bytes: &[u8], path: &ContentPath) -> (r: Option<Result<Vec<String>, ImportAssetError>>)
    ensures
        r is None <==> gltf_panics(bytes@),
        r matches Some(res) ==> dependencies_listed(bytes@, path@, res),
{
    if !gltf_header_is_sound(bytes) {
        return None;
    }
    match read_gltf_position_accessors(bytes) {
        Ok((count, meshes)) => {
            if positions_out_of_bounds(count, &meshes) {
                return None;
            }
        },
        Err(_) => {},
    }
    match read_gltf_references(bytes) {
        Ok((_, images)) => {
            if image_sources_unreadable(&images) {
                return None;
            }
        },
        Err(_) => {},
    }
    Some(collect_gltf_dependencies(bytes, path))
}

/// The files that the glTF document in `bytes` references, as a sorted
/// set: each buffer and image URI, trimmed, except inline `data:` ones. A
/// document that `gltf` refuses is a `Parse` error naming `path`. The
/// documents on which `gltf` panics are left out (see `gltf_panics` and
/// `gltf_dependencies`).
pub fn collect_gltf_dependencies(bytes: &[u8], path: &ContentPath) -> (r: Result<Vec<String>, ImportAssetError>)
    requires
        !gltf_panics(bytes@),
    ensures
        dependencies_listed(bytes@, path@, r),
{
    match read_gltf_references(bytes) {
        Ok((buffers, images)) => {
            let uris = external_uris(&buffers, &images);
            Ok(dependency_set(&uris))
        },
        Err(source) => Err(ImportAssetError::Parse { path: path.duplicate(), source }),
    }
}

/// The names of `rel` taken one by one below a folder: a name goes one
/// level down, `.` stays and `..` goes one level up; `None` once `..` would
/// leave the folder.
pub open spec fn descend(rel: Seq<Seq<char>>) -> Option<Seq<Seq<char>>>
    decreases rel.len(),
{
    if rel.len() == 0 {
        Some(seq![])
    } else {
        match descend(rel.drop_last()) {
            None => None,
            Some(st) => if rel.last() == seq!['.', '.'] {
                if st.len() == 0 {
                    None
                } else {
                    Some(st.drop_last())
                }
            } else if rel.last() == seq!['.'] {
                Some(st)
            } else {
                Some(st.push(rel.last()))
            },
        }
    }
}

/// `rel` resolved below `base`; `None` when `rel` is rooted or climbs out
/// of `base`.
pub open spec fn safe_join_model(base: PathModel, rel: PathModel) -> Option<PathModel> {
    if rel.rooted {
        None
    } else {
        match descend(rel.parts) {
            Some(st) => Some(PathModel { rooted: base.rooted, parts: base.parts + st }),
            None => None,
        }
    }
}

/// Joins `relative` below `base`, refusing, as a reference `original` that
/// escapes the folder, a rooted path or one that climbs above `base`.
pub fn safe_join(base: &ContentPath, relative: &ContentPath, original: &str) -> (r: Result<
    ContentPath,
    ImportAssetError,
>)
    ensures
        match safe_join_model(base@, relative@) {
            Some(p) => match r {
                Ok(q) => q@ == p,
                Err(_) => false,
            },
            None => match r {
                Err(ImportAssetError::DependencyEscapes { uri }) => uri@ == original@,
                _ => false,
            },
        },
{
    if relative.rooted {
        return Err(ImportAssetError::DependencyEscapes { uri: string_from(original) });
    }
    let mut result = base.duplicate();
    let mut depth: usize = 0;
    let mut i: usize = 0;
    proof {
        assert(relative@.parts.take(0) =~= Seq::<Seq<char>>::empty());
        assert(base@.parts + Seq::<Seq<char>>::empty() =~= base@.parts);
    }
    while i < relative.parts.len()
        invariant
            i <= relative.parts.len(),
            !relative.rooted,
            descend(relative@.parts.take(i as int)) is Some,
            result@ == (PathModel {
                rooted: base@.rooted,
                parts: base@.parts + descend(relative@.parts.take(i as int))->0,
            }),
            depth == descend(relative@.parts.take(i as int))->0.len(),
            depth <= i,
        decreases relative.parts.len() - i,
    {
        let ghost st = descend(relative@.parts.take(i as int))->0;
        proof {
            assert(relative@.parts.take(i + 1).drop_last() =~= relative@.parts.take(i as int));
            assert(relative@.parts.take(i + 1).last() == relative.parts@[i as int]@);
        }
        let part = &relative.parts[i];
        if is_current_name(part.as_str()) {
        } else if is_parent_name(part.as_str()) {
            if depth == 0 {
                proof {
                    lemma_descend_prefix(relative@.parts, i + 1);
                }
                return Err(ImportAssetError::DependencyEscapes { uri: string_from(original) });
            }
            let ghost before = result.parts@;
            proof {
                assert(names_of(before).len() == before.len());
                assert(before.len() > 0);
            }
            let _ = result.parts.pop();
            proof {
                assert(result.parts@ =~= before.drop_last());
                assert(names_of(result.parts@) =~= names_of(before).drop_last());
                assert(base@.parts + st.drop_last() =~= (base@.parts + st).drop_last());
            }
            depth = depth - 1;
        } else {
            let ghost before = result.parts@;
            result.parts.push(part.clone());
            proof {
                lemma_names_push(before, relative.parts@[i as int]);
                assert(base@.parts + st.push(relative.parts@[i as int]@) =~= (base@.parts + st).push(
                    relative.parts@[i as int]@,
                ));
            }
            depth = depth + 1;
        }
        i = i + 1;
    }
    proof {
        assert(relative@.parts.take(relative@.parts.len() as int) =~= relative@.parts);
    }
    Ok(result)
}

/// Once a prefix of the names climbs out of the folder, so do all of them.
proof fn lemma_descend_prefix(rel: Seq<Seq<char>>, i: int)
    requires
        0 <= i <= rel.len(),
        descend(rel.take(i)) is None,
    ensures
        descend(rel) is None,
    decreases rel.len() - i,
{
    if i < rel.len() {
        assert(rel.take(i + 1).drop_last() =~= rel.take(i));
        lemma_descend_prefix(rel, i + 1);
    } else {
        assert(rel.take(i) =~= rel);
    }
}

fn is_current_name(name: &str) -> (r: bool)
    ensures
        r == (name@ == seq!['.']),
{
    if name.unicode_len() != 1 {
        return false;
    }
    let r = name.get_char(0) == '.';
    proof {
        if r {
            assert(name@ =~= seq!['.']);
        }
    }
    r
}

fn is_parent_name(name: &str) -> (r: bool)
    ensures
        r == (name@ == seq!['.', '.']),
{
    if name.unicode_len() != 2 {
        return false;
    }
    let r = name.get_char(0) == '.' && name.get_char(1) == '.';
    proof {
        if r {
            assert(name@ =~= seq!['.', '.']);
        }
    }
    r
}

/// A dependency that resolves at all lands inside the folder it is copied
/// to.
pub proof fn lemma_safe_join_stays_inside(base: PathModel, rel: PathModel)
    ensures
        safe_join_model(base, rel) matches Some(p) ==> starts_with_model(p, base),
{
    if let Some(p) = safe_join_model(base, rel) {
        assert(p.parts.subrange(0, base.parts.len() as int) =~= base.parts);
    }
}

/// What an asset's reference, once percent-decoded, asks for.
pub enum ReferencePlan {
    /// The reference could not be decoded.
    Malformed,
    /// A URL, a network path or an absolute path.
    Unsupported,
    /// Inline `data:`; nothing to copy.
    Inline,
    /// A file at this path relative to the asset.
    Relative(PathModel),
}

/// How a reference whose decoded text is `decoded` is treated.
pub open spec fn reference_plan(decoded: Option<Seq<char>>) -> ReferencePlan {
    match decoded {
        None => ReferencePlan::Malformed,
        Some(d) => if contains_seq(d, "://"@) || has_prefix(d, "//"@) {
            ReferencePlan::Unsupported
        } else if has_prefix(d, "data:"@) {
            ReferencePlan::Inline
        } else if parse_model(d).rooted {
            ReferencePlan::Unsupported
        } else {
            ReferencePlan::Relative(parse_model(d))
        },
    }
}

/// The view of an optional owned string.
pub open spec fn opt_string_view(s: Option<String>) -> Option<Seq<char>> {
    match s {
        Some(x) => Some(x@),
        None => None,
    }
}

/// Classifies reference `uri` by its decoded text (`None` when decoding
/// failed): `Ok(None)` for inline data, `Ok(Some(path))` for a relative
/// file, and the error for the rest; see `reference_plan`.
pub fn classify_reference(uri: &str, decoded: Option<String>) -> (r: Result<Option<ContentPath>, ImportAssetError>)
    ensures
        match reference_plan(opt_string_view(decoded)) {
            ReferencePlan::Malformed => match r {
                Err(ImportAssetError::MalformedUri { uri: u }) => u@ == uri@,
                _ => false,
            },
            ReferencePlan::Unsupported => match r {
                Err(ImportAssetError::UnsupportedReference { uri: u }) => u@ == uri@,
                _ => false,
            },
            ReferencePlan::Inline => r matches Ok(None),
            ReferencePlan::Relative(p) => match r {
                Ok(Some(q)) => q@ == p,
                _ => false,
            },
        },
{
    let d = match decoded {
        Some(d) => d,
        None => return Err(ImportAssetError::MalformedUri { uri: string_from(uri) }),
    };
    if contains_str(d.as_str(), "://") || starts_with(d.as_str(), "//") {
        return Err(ImportAssetError::UnsupportedReference { uri: string_from(uri) });
    }
    if starts_with(d.as_str(), "data:") {
        return Ok(None);
    }
    let relative = ContentPath::parse(d.as_str());
    if relative.rooted {
        return Err(ImportAssetError::UnsupportedReference { uri: string_from(uri) });
    }
    Ok(Some(relative))
}

/// What to do for one dependency of an imported asset.
#[derive(Debug)]
pub enum DependencyStep {
    /// Nothing to copy.
    Skip,
    /// Copy the file at `source` to `destination`.
    Copy { source: ContentPath, destination: ContentPath },
}

/// What planning the copy of a dependency gives, given whether its source
/// `resolved` exists: a missing source is a `MissingDependency` error;
/// otherwise it is copied below `asset_folder`, unless `relative` climbs out
/// of it (`DependencyEscapes`).
pub open spec fn dependency_copy_outcome(
    uri: Seq<char>,
    resolved: PathModel,
    relative: PathModel,
    asset_folder: PathModel,
    source_exists: bool,
    r: Result<DependencyStep, ImportAssetError>,
) -> bool {
    if !source_exists {
        match r {
            Err(ImportAssetError::MissingDependency { uri: u, resolved: p }) => u@ == uri && p@ == resolved,
            _ => false,
        }
    } else {
        match safe_join_model(asset_folder, relative) {
            Some(d) => match r {
                Ok(DependencyStep::Copy { source, destination }) => source@ == resolved && destination@ == d,
                _ => false,
            },
            None => match r {
                Err(ImportAssetError::DependencyEscapes { uri: u }) => u@ == uri,
                _ => false,
            },
        }
    }
}

/// Where a relative dependency is read from and copied to, given whether
/// its source file `resolved` (the dependency below the asset's folder)
/// exists.
pub fn plan_dependency_copy(
    uri: &str,
    resolved: ContentPath,
    relative: &ContentPath,
    asset_folder: &ContentPath,
    source_exists: bool,
) -> (r: Result<DependencyStep, ImportAssetError>)
    ensures
        dependency_copy_outcome(uri@, resolved@, relative@, asset_folder@, source_exists, r),
{
    if !source_exists {
        return Err(ImportAssetError::MissingDependency { uri: string_from(uri), resolved });
    }
    match safe_join(asset_folder, relative, uri) {
        Ok(destination) => Ok(DependencyStep::Copy { source: resolved, destination }),
        Err(e) => Err(e),
    }
}

/// The folder an asset's relative references are read from: the asset's
/// parent, or the current folder when it has none.
pub open spec fn source_folder_model(source_path: PathModel) -> PathModel {
    match parent_model(source_path) {
        Some(p) => p,
        None => PathModel { rooted: false, parts: seq![] },
    }
}

pub fn source_folder(source_path: &ContentPath) -> (r: ContentPath)
    ensures
        r@ == source_folder_model(source_path@),
{
    match source_path.parent() {
        Some(p) => p,
        None => ContentPath::empty(),
    }
}

/// Plans dependency `uri` of the asset at `source_path`, whose decoded
/// text is `decoded`, for an import into `asset_folder`: the outcome of
/// `classify_reference`, then, for a relative reference, the file system is
/// asked whether the source exists and its answer decides as in
/// `plan_dependency_copy`.
pub fn plan_dependency(uri: &str, decoded: Option<String>, source_path: &ContentPath, asset_folder: &ContentPath) -> (r:
    Result<DependencyStep, ImportAssetError>)
    ensures
        match reference_plan(opt_string_view(decoded)) {
            ReferencePlan::Malformed => match r {
                Err(ImportAssetError::MalformedUri { uri: u }) => u@ == uri@,
                _ => false,
            },
            ReferencePlan::Unsupported => match r {
                Err(ImportAssetError::UnsupportedReference { uri: u }) => u@ == uri@,
                _ => false,
            },
            ReferencePlan::Inline => r matches Ok(DependencyStep::Skip),
            ReferencePlan::Relative(rel) => {
                let resolved = join_model(source_folder_model(source_path@), rel);
                exists|found: bool|
                    #[trigger] disk_answered(resolved, found) && dependency_copy_outcome(
                        uri@,
                        resolved,
                        rel,
                        asset_folder@,
                        found,
                        r,
                    )
            },
        },
{
    match classify_reference(uri, decoded) {
        Err(e) => Err(e),
        Ok(None) => Ok(DependencyStep::Skip),
        Ok(Some(relative)) => {
            let folder = source_folder(source_path);
            let resolved = folder.join(&relative);
            let exists = exists_on_disk(&resolved);
            plan_dependency_copy(uri, resolved, &relative, asset_folder, exists)
        },
    }
}

/// Whether a path names a glTF file: its extension, lower-cased, is `gltf`
/// or `glb`.
pub open spec fn has_gltf_extension(p: PathModel) -> bool {
    match file_name_model(p) {
        Some(n) => match name_extension(n) {
            Some(e) => lower_ascii(e) == "gltf"@ || lower_ascii(e) == "glb"@,
            None => false,
        },
        None => false,
    }
}

/// Name of the folder an asset is imported into: the file's stem, or
/// `asset` when there is none.
pub open spec fn import_base_name(p: PathModel) -> Seq<char> {
    match file_name_model(p) {
        Some(n) => if name_stem(n).len() > 0 {
            name_stem(n)
        } else {
            "asset"@
        },
        None => "asset"@,
    }
}

/// What checking an import request gives, given whether the source
/// exists: a destination outside the content root is refused first, then a
/// missing source, then a file that is not `.gltf` or `.glb`; an accepted
/// request gives the base name of the asset's folder.
pub open spec fn import_request_outcome(
    content_root: PathModel,
    destination_root: PathModel,
    source_path: PathModel,
    source_exists: bool,
    r: Result<String, ImportAssetError>,
) -> bool {
    if !starts_with_model(destination_root, content_root) {
        match r {
            Err(ImportAssetError::DestinationOutside { destination }) => destination@ == destination_root,
            _ => false,
        }
    } else if !source_exists {
        match r {
            Err(ImportAssetError::MissingSource { path }) => path@ == source_path,
            _ => false,
        }
    } else if !has_gltf_extension(source_path) {
        match r {
            Err(ImportAssetError::UnsupportedExtension { path }) => path@ == source_path,
            _ => false,
        }
    } else {
        match r {
            Ok(base) => base@ == import_base_name(source_path),
            _ => false,
        }
    }
}

/// Checks an import request, given whether the source file exists: the
/// destination must lie in the content root, the source must exist and be
/// a glTF file. Gives the base name of the asset's folder.
pub fn import_request_check(
    content_root: &ContentPath,
    destination_root: &ContentPath,
    source_path: &ContentPath,
    source_exists: bool,
) -> (r: Result<String, ImportAssetError>)
    ensures
        import_request_outcome(content_root@, destination_root@, source_path@, source_exists, r),
{
    if !destination_root.starts_with(content_root) {
        return Err(ImportAssetError::DestinationOutside { destination: destination_root.duplicate() });
    }
    if !source_exists {
        return Err(ImportAssetError::MissingSource { path: source_path.duplicate() });
    }
    proof {
        reveal_strlit("gltf");
        reveal_strlit("glb");
        reveal_strlit("asset");
    }
    let name = match source_path.file_name() {
        Some(n) => n,
        None => return Err(ImportAssetError::UnsupportedExtension { path: source_path.duplicate() }),
    };
    let is_gltf = match file_extension(name.as_str()) {
        Some(ext) => {
            let lower = to_ascii_lowercase(ext.as_str());
            let a = string_eq(&lower, &string_from("gltf"));
            let b = string_eq(&lower, &string_from("glb"));
            a || b
        },
        None => false,
    };
    if !is_gltf {
        return Err(ImportAssetError::UnsupportedExtension { path: source_path.duplicate() });
    }
    let stem = file_stem(name.as_str());
    if stem.as_str().unicode_len() > 0 {
        Ok(stem)
    } else {
        Ok(string_from("asset"))
    }
}

/// Checks an import request: the file system is asked whether the source
/// exists, and its answer decides as in `import_request_check`.
pub fn check_import_source(content_root: &ContentPath, destination_root: &ContentPath, source_path: &ContentPath) -> (r:
    Result<String, ImportAssetError>)
    ensures
        exists|found: bool|
            #[trigger] disk_answered(source_path@, found) && import_request_outcome(
                content_root@,
                destination_root@,
                source_path@,
                found,
                r,
            ),
{
    let exists = exists_on_disk(source_path);
    import_request_check(content_root, destination_root, source_path, exists)
}

/// The path the imported file itself is copied to: its file name in the
/// asset's folder.
pub fn imported_file_destination(asset_folder: &ContentPath, source_path: &ContentPath) -> (r: Result<
    ContentPath,
    ImportAssetError,
>)
    ensures
        match file_name_model(source_path@) {
            Some(n) => match r {
                Ok(p) => p@ == push_model(asset_folder@, n),
                Err(_) => false,
            },
            None => match r {
                Err(ImportAssetError::UnsupportedExtension { path }) => path@ == source_path@,
                _ => false,
            },
        },
{
    match source_path.file_name() {
        Some(n) => Ok(asset_folder.join_name(n.as_str())),
        None => Err(ImportAssetError::UnsupportedExtension { path: source_path.duplicate() }),
    }
}

/// The imported file's path relative to the project folder.
pub fn project_relative_path(destination_file: &ContentPath, project_dir: &ContentPath) -> (r: Result<
    ContentPath,
    ImportAssetError,
>)
    ensures
        match strip_prefix_model(destination_file@, project_dir@) {
            Some(p) => match r {
                Ok(q) => q@ == p,
                Err(_) => false,
            },
            None => match r {
                Err(ImportAssetError::DestinationOutside { destination }) => destination@ == destination_file@,
                _ => false,
            },
        },
{
    match destination_file.strip_prefix(project_dir) {
        Some(p) => Ok(p),
        None => Err(ImportAssetError::DestinationOutside { destination: destination_file.duplicate() }),
    }
}

/// Name of the entity made for an imported file: its stem, or `Imported
/// glTF` when it has none, followed by ` (glTF)`.
pub open spec fn imported_entity_name_model(p: PathModel) -> Seq<char> {
    let base = match file_name_model(p) {
        Some(n) => if name_stem(n).len() > 0 {
            name_stem(n)
        } else {
            "Imported glTF"@
        },
        None => "Imported glTF"@,
    };
    base + " (glTF)"@
}

pub fn imported_entity_name(absolute_gltf: &ContentPath) -> (r: String)
    ensures
        r@ == imported_entity_name_model(absolute_gltf@),
{
    let base = match absolute_gltf.file_name() {
        Some(n) => {
            let stem = file_stem(n.as_str());
            if stem.as_str().unicode_len() > 0 {
                stem
            } else {
                string_from("Imported glTF")
            }
        },
        None => string_from("Imported glTF"),
    };
    let mut out = base;
    out.append(" (glTF)");
    out
}

} // verus!
