//! Reading and editing the declarative mapping file, `kubo.toml` under the
//! mirror root. The TOML parsing and rewriting go through trusted wrappers
//! around the `toml` and `toml_edit` crates, whose results are named;
//! validating the parsed entries and loading them into the registry is
//! verified.

use vstd::prelude::*;

use crate::kpath::{KPath, check_abs, check_seg, is_abs_path, is_seg};
use crate::kubo_manager::{KuboManager, Locked, Unlocked};

verus! {

/// The mapping that the `toml` crate reads out of a text, as ordered
/// (name, source, target) triples, or nothing where the text does not
/// parse as such a mapping.
pub uninterp spec fn toml_mapping(text: Seq<u8>) -> Option<Seq<(Seq<u8>, Seq<u8>, Seq<u8>)>>;

/// The mapping text as rewritten by the `toml_edit` crate with `source`
/// and `target` set under `name`, or nothing where the text does not parse.
pub uninterp spec fn toml_with_entry(
    text: Seq<u8>,
    name: Seq<u8>,
    source: Seq<u8>,
    target: Seq<u8>,
) -> Option<Seq<u8>>;

/// The mapping text as rewritten by the `toml_edit` crate with the entry
/// under `name` removed, or nothing where the text does not parse.
pub uninterp spec fn toml_without_entry(text: Seq<u8>, name: Seq<u8>) -> Option<Seq<u8>>;

/// The byte sequences held by a vector of parsed mapping triples.
pub open spec fn triples_view(s: Seq<(Vec<u8>, Vec<u8>, Vec<u8>)>) -> Seq<
    (Seq<u8>, Seq<u8>, Seq<u8>),
> {
    s.map_values(|t: (Vec<u8>, Vec<u8>, Vec<u8>)| (t.0@, t.1@, t.2@))
}

/// A parsed entry is usable when its source is an absolute path and its
/// target label a single segment.
pub open spec fn triple_ok(t: (Seq<u8>, Seq<u8>, Seq<u8>)) -> bool {
    is_abs_path(t.1) && is_seg(t.2)
}

/// Every parsed entry is usable.
pub open spec fn triples_ok(s: Seq<(Seq<u8>, Seq<u8>, Seq<u8>)>) -> bool {
    forall|i: int| 0 <= i < s.len() ==> triple_ok(#[trigger] s[i])
}

/// The registry entries that a sequence of parsed triples loads: each
/// source path with its target label, in order.
pub open spec fn triples_to_entries(s: Seq<(Seq<u8>, Seq<u8>, Seq<u8>)>) -> Seq<
    (Seq<u8>, Seq<u8>),
> {
    s.map_values(|t: (Seq<u8>, Seq<u8>, Seq<u8>)| (t.1, t.2))
}

/// The names of a sequence of parsed triples, in order.
pub open spec fn triple_names(s: Seq<(Seq<u8>, Seq<u8>, Seq<u8>)>) -> Seq<Seq<u8>> {
    s.map_values(|t: (Seq<u8>, Seq<u8>, Seq<u8>)| t.0)
}

/// The registry entries extend `base` by exactly the entries of some text
/// that parses as a mapping whose entries are all usable — what loading a
/// mapping file leaves behind, whatever text the disk held.
pub open spec fn loaded_from_mapping(
    base: Seq<(Seq<u8>, Seq<u8>)>,
    entries: Seq<(Seq<u8>, Seq<u8>)>,
) -> bool {
    exists|t: Seq<u8>|
        {
            &&& (#[trigger] toml_mapping(t)) is Some
            &&& triples_ok(toml_mapping(t).unwrap())
            &&& entries == base + triples_to_entries(toml_mapping(t).unwrap())
        }
}

/// Relies on fs_extra's `file::read_to_string`: what is read depends on the
/// disk alone, so nothing is claimed of the contents.
#[verifier::external_body]
pub(crate) fn read_file(p: &KPath) -> Result<Vec<u8>, ()> {
    let s: String = String::from_utf8_lossy(p.as_bytes()).into_owned();
    match fs_extra::file::read_to_string(&s) {
        Ok(content) => Ok(content.into_bytes()),
        Err(_) => Err(()),
    }
}

/// Relies on fs_extra's `file::write_all`: writes the content to the file,
/// creating or truncating it; content that is not UTF-8 is refused rather
/// than altered.
#[verifier::external_body]
fn write_file(p: &KPath, content: &Vec<u8>) -> Result<(), ()> {
    let s: String = String::from_utf8_lossy(p.as_bytes()).into_owned();
    let c = std::str::from_utf8(content).map_err(|_| ())?;
    match fs_extra::file::write_all(&s, c) {
        Ok(_) => Ok(()),
        Err(_) => Err(()),
    }
}

/// Relies on the `toml` crate's `Table` parser: the mapping read from a
/// text is a function of the text alone; a text that is not a table of
/// entries carrying `source` and `target` strings is rejected.
#[verifier::external_body]
pub(crate) fn parse_mapping(text: &Vec<u8>) -> (r: Result<Vec<(Vec<u8>, Vec<u8>, Vec<u8>)>, ()>)
    ensures
        r is Ok <==> toml_mapping(text@) is Some,
        r matches Ok(v) ==> Some(triples_view(v@)) == toml_mapping(text@),
{
    let s = std::str::from_utf8(text).map_err(|_| ())?;
    let table: toml::Table = s.parse().map_err(|_| ())?;
    let mut out: Vec<(Vec<u8>, Vec<u8>, Vec<u8>)> = Vec::new();
    for (name, item) in table.iter() {
        let src = item.get("source").and_then(toml::Value::as_str).ok_or(())?;
        let tgt = item.get("target").and_then(toml::Value::as_str).ok_or(())?;
        out.push((name.clone().into_bytes(), src.as_bytes().to_vec(), tgt.as_bytes().to_vec()));
    }
    Ok(out)
}

/// Relies on toml_edit's `DocumentMut`: the rewrite that replaces the entry
/// under `name` with one holding exactly the given `source` and `target` is
/// a function of the arguments alone and keeps the other entries.
#[verifier::external_body]
fn toml_set_entry(text: &Vec<u8>, name: &Vec<u8>, source: &Vec<u8>, target: &Vec<u8>) -> (r: Result<
    Vec<u8>,
    (),
>)
    ensures
        r is Ok <==> toml_with_entry(text@, name@, source@, target@) is Some,
        r matches Ok(v) ==> Some(v@) == toml_with_entry(text@, name@, source@, target@),
{
    let s = std::str::from_utf8(text).map_err(|_| ())?;
    let n = std::str::from_utf8(name).map_err(|_| ())?;
    let src = std::str::from_utf8(source).map_err(|_| ())?;
    let tgt = std::str::from_utf8(target).map_err(|_| ())?;
    let mut doc: toml_edit::DocumentMut = s.parse().map_err(|_| ())?;
    let mut tbl = toml_edit::Table::new();
    tbl.insert("source", toml_edit::value(src));
    tbl.insert("target", toml_edit::value(tgt));
    doc.insert(n, toml_edit::Item::Table(tbl));
    Ok(doc.to_string().into_bytes())
}

/// Relies on toml_edit's `DocumentMut`: the rewrite that removes the entry
/// under `name` is a function of the arguments alone and keeps the rest of
/// the document.
#[verifier::external_body]
fn toml_remove_entry(text: &Vec<u8>, name: &Vec<u8>) -> (r: Result<Vec<u8>, ()>)
    ensures
        r is Ok <==> toml_without_entry(text@, name@) is Some,
        r matches Ok(v) ==> Some(v@) == toml_without_entry(text@, name@),
{
    let s = std::str::from_utf8(text).map_err(|_| ())?;
    let n = std::str::from_utf8(name).map_err(|_| ())?;
    let mut doc: toml_edit::DocumentMut = s.parse().map_err(|_| ())?;
    doc.remove(n);
    Ok(doc.to_string().into_bytes())
}

/// Decides whether every parsed entry is usable: source an absolute path,
/// target label a single segment.
pub fn mapping_ok(entries: &Vec<(Vec<u8>, Vec<u8>, Vec<u8>)>) -> (r: bool)
    ensures
        r == triples_ok(triples_view(entries@)),
{
    let mut i: usize = 0;
    while i < entries.len()
        invariant
            0 <= i <= entries@.len(),
            forall|j: int| 0 <= j < i ==> triple_ok(#[trigger] triples_view(entries@)[j]),
        decreases entries@.len() - i,
    {
        let ok_src = check_abs(&entries[i].1);
        let ok_tgt = check_seg(&entries[i].2);
        if !ok_src || !ok_tgt {
            proof {
                assert(!triple_ok(triples_view(entries@)[i as int]));
            }
            return false;
        }
        proof {
            assert(triple_ok(triples_view(entries@)[i as int]));
        }
        i = i + 1;
    }
    true
}

/// The names of the parsed mapping entries, in order.
pub fn mapping_names(entries: &Vec<(Vec<u8>, Vec<u8>, Vec<u8>)>) -> (r: Vec<Vec<u8>>)
    ensures
        r@.map_values(|n: Vec<u8>| n@) =~= triple_names(triples_view(entries@)),
{
    let mut names: Vec<Vec<u8>> = Vec::new();
    let mut i: usize = 0;
    while i < entries.len()
        invariant
            0 <= i <= entries@.len(),
            names@.len() == i,
            forall|j: int| 0 <= j < i ==> (#[trigger] names@[j])@ == entries@[j].0@,
        decreases entries@.len() - i,
    {
        let n = entries[i].0.clone();
        proof {
            assert(n@ =~= entries@[i as int].0@);
        }
        names.push(n);
        i = i + 1;
    }
    proof {
        let lhs = names@.map_values(|n: Vec<u8>| n@);
        let rhs = triple_names(triples_view(entries@));
        assert forall|k: int| 0 <= k < lhs.len() implies lhs[k] == rhs[k] by {
            assert(triples_view(entries@)[k] == (entries@[k].0@, entries@[k].1@, entries@[k].2@));
        }
        assert(lhs =~= rhs);
    }
    names
}

/// Loads every parsed entry into the registry, in order, and locks it.
pub fn apply_mapping(
    state: KuboManager<Unlocked>,
    entries: &Vec<(Vec<u8>, Vec<u8>, Vec<u8>)>,
) -> (r: KuboManager<Locked>)
    requires
        state.wf(),
        triples_ok(triples_view(entries@)),
    ensures
        r@.root == state@.root,
        r@.entries =~= state@.entries + triples_to_entries(triples_view(entries@)),
        r.wf(),
{
    let ghost orig = state@;
    let ghost tv = triples_view(entries@);
    let mut s = state;
    let mut i: usize = 0;
    while i < entries.len()
        invariant
            0 <= i <= entries@.len(),
            tv == triples_view(entries@),
            triples_ok(tv),
            s.wf(),
            s@.root == orig.root,
            s@.entries =~= orig.entries + triples_to_entries(tv.subrange(0, i as int)),
        decreases entries@.len() - i,
    {
        proof {
            assert(tv[i as int] == (entries@[i as int].0@, entries@[i as int].1@,
            entries@[i as int].2@));
            assert(triple_ok(tv[i as int]));
        }
        let src_bytes = entries[i].1.clone();
        let tgt = entries[i].2.clone();
        proof {
            assert(src_bytes@ =~= entries@[i as int].1@);
            assert(tgt@ =~= entries@[i as int].2@);
        }
        let p = KPath::from_bytes(src_bytes);
        s = s.add_path(p, tgt);
        proof {
            assert(triples_to_entries(tv.subrange(0, i + 1)) =~= triples_to_entries(
                tv.subrange(0, i as int),
            ).push((tv[i as int].1, tv[i as int].2)));
            assert(s@.entries =~= orig.entries + triples_to_entries(tv.subrange(0, i + 1)));
        }
        i = i + 1;
    }
    proof {
        assert(tv.subrange(0, tv.len() as int) =~= tv);
    }
    s.lock()
}

/// Reads the mapping file under the registry's mirror root, loads its
/// entries and locks the registry; where the file cannot be read, does not
/// parse, or holds an unusable entry, the registry is handed back unchanged
/// and unlocked. On success the entries appended are exactly those of the
/// text that was read.
pub fn read_config(state: KuboManager<Unlocked>) -> (r: Result<
    KuboManager<Locked>,
    KuboManager<Unlocked>,
>)
    requires
        state.wf(),
    ensures
        r matches Err(s) ==> s@ == state@ && s.wf(),
        r matches Ok(m) ==> m@.root == state@.root && m.wf() && loaded_from_mapping(
            state@.entries,
            m@.entries,
        ),
{
    let cfg = state.config_path();
    let text = match read_file(&cfg) {
        Ok(t) => t,
        Err(_) => {
            return Err(state);
        },
    };
    let triples = match parse_mapping(&text) {
        Ok(t) => t,
        Err(_) => {
            return Err(state);
        },
    };
    if !mapping_ok(&triples) {
        return Err(state);
    }
    let ghost base = state@.entries;
    let m = apply_mapping(state, &triples);
    proof {
        assert(toml_mapping(text@).unwrap() == triples_view(triples@));
        assert(m@.entries == base + triples_to_entries(toml_mapping(text@).unwrap()));
        assert(loaded_from_mapping(base, m@.entries));
    }
    Ok(m)
}

/// Sets the mapping entry under `name` to the given source and target in
/// the mapping file; fails where the file cannot be read, rewritten or
/// written back. Success means some read text was rewritten by the named
/// rewrite and the rewritten bytes written back, nothing else.
pub fn add_dotfile(
    state: &KuboManager<Locked>,
    name: &Vec<u8>,
    src: &KPath,
    target: &Vec<u8>,
) -> (r: Result<(), ()>)
    requires
        state.wf(),
    ensures
        r is Ok ==> exists|t: Seq<u8>|
            (#[trigger] toml_with_entry(t, name@, src@, target@)) is Some,
{
    let cfg = state.config_path();
    let text = match read_file(&cfg) {
        Ok(t) => t,
        Err(_) => {
            return Err(());
        },
    };
    let new_text = match toml_set_entry(&text, name, src.as_bytes(), target) {
        Ok(t) => t,
        Err(_) => {
            return Err(());
        },
    };
    proof {
        assert(toml_with_entry(text@, name@, src@, target@) is Some);
    }
    write_file(&cfg, &new_text)
}

/// Removes the mapping entry under `name` from the mapping file; fails
/// where the file cannot be read, rewritten or written back. Success means
/// some read text was rewritten by the named rewrite and the rewritten
/// bytes written back, nothing else.
pub fn remove_dotfile(state: &KuboManager<Locked>, name: &Vec<u8>) -> (r: Result<(), ()>)
    requires
        state.wf(),
    ensures
        r is Ok ==> exists|t: Seq<u8>| (#[trigger] toml_without_entry(t, name@)) is Some,
{
    let cfg = state.config_path();
    let text = match read_file(&cfg) {
        Ok(t) => t,
        Err(_) => {
            return Err(());
        },
    };
    let new_text = match toml_remove_entry(&text, name) {
        Ok(t) => t,
        Err(_) => {
            return Err(());
        },
    };
    proof {
        assert(toml_without_entry(text@, name@) is Some);
    }
    write_file(&cfg, &new_text)
}

/// The names of all managed dotfile sets in the mapping file, in mapping
/// order; fails where the file cannot be read or does not parse. On
/// success the names are exactly those of the text that was read, each
/// once, in mapping order.
pub fn list_dotfiles(state: &KuboManager<Locked>) -> (r: Result<Vec<Vec<u8>>, ()>)
    requires
        state.wf(),
    ensures
        r matches Ok(v) ==> exists|t: Seq<u8>|
            {
                &&& (#[trigger] toml_mapping(t)) is Some
                &&& v@.map_values(|n: Vec<u8>| n@) == triple_names(toml_mapping(t).unwrap())
            },
{
    let cfg = state.config_path();
    let text = match read_file(&cfg) {
        Ok(t) => t,
        Err(_) => {
            return Err(());
        },
    };
    let triples = match parse_mapping(&text) {
        Ok(t) => t,
        Err(_) => {
            return Err(());
        },
    };
    let names = mapping_names(&triples);
    proof {
        assert(toml_mapping(text@).unwrap() == triples_view(triples@));
        assert(names@.map_values(|n: Vec<u8>| n@) == triple_names(toml_mapping(text@).unwrap()));
    }
    Ok(names)
}

} // verus!
