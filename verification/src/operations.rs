//! Mirror operations: copying a managed path to its mirrored location and
//! removing a mirrored location, with resolution done by the locked registry.
//! The filesystem work itself goes through trusted wrappers around `fs_extra`
//! and `std::path`; everything around them is verified.

use vstd::prelude::*;

use crate::kpath::KPath;
use crate::kubo_manager::{KuboManager, Locked, RegModel, resolve_spec};

verus! {

/// What a mirror operation did, with the mirror location it acted on.
#[derive(Debug)]
pub enum MirrorOutcome {
    Copied(KPath),
    CopyFailed(KPath),
    Deleted(KPath),
    DeleteFailed(KPath),
    NotManaged,
}

/// A copy outcome is consistent with resolution: `NotManaged` exactly when
/// nothing resolves, otherwise a copy success or failure at the resolved
/// mirror location.
pub open spec fn copy_outcome_ok(m: RegModel, p: Seq<u8>, o: MirrorOutcome) -> bool {
    &&& (o is NotManaged <==> resolve_spec(m, p) is None)
    &&& (o matches MirrorOutcome::Copied(t) ==> resolve_spec(m, p) == Some(t@))
    &&& (o matches MirrorOutcome::CopyFailed(t) ==> resolve_spec(m, p) == Some(t@))
    &&& !(o is Deleted)
    &&& !(o is DeleteFailed)
}

/// A delete outcome is consistent with resolution: `NotManaged` exactly when
/// nothing resolves, otherwise a removal success or failure at the resolved
/// mirror location.
pub open spec fn delete_outcome_ok(m: RegModel, p: Seq<u8>, o: MirrorOutcome) -> bool {
    &&& (o is NotManaged <==> resolve_spec(m, p) is None)
    &&& (o matches MirrorOutcome::Deleted(t) ==> resolve_spec(m, p) == Some(t@))
    &&& (o matches MirrorOutcome::DeleteFailed(t) ==> resolve_spec(m, p) == Some(t@))
    &&& !(o is Copied)
    &&& !(o is CopyFailed)
}

/// Relies on std's `Path::exists`: asks the filesystem whether the path
/// names an existing node; the answer depends on the disk alone.
#[verifier::external_body]
pub(crate) fn path_exists(p: &KPath) -> bool {
    let s: String = String::from_utf8_lossy(p.as_bytes()).into_owned();
    std::path::Path::new(&s).exists()
}

/// Relies on std's `Path::is_dir`: asks the filesystem whether the path
/// names an existing directory; the answer depends on the disk alone.
#[verifier::external_body]
pub(crate) fn path_is_dir(p: &KPath) -> bool {
    let s: String = String::from_utf8_lossy(p.as_bytes()).into_owned();
    std::path::Path::new(&s).is_dir()
}

/// Relies on fs_extra's `dir::create_all`: creates the directory and any
/// missing ancestors.
#[verifier::external_body]
fn fs_create_dir_all(p: &KPath) -> Result<(), ()> {
    let s: String = String::from_utf8_lossy(p.as_bytes()).into_owned();
    match fs_extra::dir::create_all(&s, false) {
        Ok(_) => Ok(()),
        Err(_) => Err(()),
    }
}

/// Relies on fs_extra's `dir::copy` with `content_only` and `overwrite`:
/// recursively copies the contents of `from` into `to`, replacing what
/// is already there.
#[verifier::external_body]
fn fs_copy_dir(from: &KPath, to: &KPath) -> Result<(), ()> {
    let f: String = String::from_utf8_lossy(from.as_bytes()).into_owned();
    let t: String = String::from_utf8_lossy(to.as_bytes()).into_owned();
    let options = fs_extra::dir::CopyOptions::new().overwrite(true).content_only(true);
    match fs_extra::dir::copy(&f, &t, &options) {
        Ok(_) => Ok(()),
        Err(_) => Err(()),
    }
}

/// Relies on fs_extra's `file::copy` with `overwrite`: copies one file,
/// replacing a file already at the destination.
#[verifier::external_body]
fn fs_copy_file(from: &KPath, to: &KPath) -> Result<(), ()> {
    let f: String = String::from_utf8_lossy(from.as_bytes()).into_owned();
    let t: String = String::from_utf8_lossy(to.as_bytes()).into_owned();
    let options = fs_extra::file::CopyOptions::new().overwrite(true);
    match fs_extra::file::copy(&f, &t, &options) {
        Ok(_) => Ok(()),
        Err(_) => Err(()),
    }
}

/// Relies on fs_extra's `dir::remove`: recursively deletes the directory.
#[verifier::external_body]
fn fs_remove_dir(p: &KPath) -> Result<(), ()> {
    let s: String = String::from_utf8_lossy(p.as_bytes()).into_owned();
    match fs_extra::dir::remove(&s) {
        Ok(_) => Ok(()),
        Err(_) => Err(()),
    }
}

/// Relies on fs_extra's `file::remove`: deletes the file.
#[verifier::external_body]
fn fs_remove_file(p: &KPath) -> Result<(), ()> {
    let s: String = String::from_utf8_lossy(p.as_bytes()).into_owned();
    match fs_extra::file::remove(&s) {
        Ok(_) => Ok(()),
        Err(_) => Err(()),
    }
}

/// Resolves the mirror location of a path and, only when something
/// resolves, creates the mirror root directory if it is absent; an
/// unmanaged path causes no write at all.
fn get_target_dir(dot_path: &KPath, state: &KuboManager<Locked>) -> (r: Result<KPath, ()>)
    requires
        state.wf(),
    ensures
        r matches Ok(t) ==> resolve_spec(state@, dot_path@) == Some(t@),
        r is Err <==> resolve_spec(state@, dot_path@) is None,
{
    let target = match state.convert_path(dot_path) {
        Ok(t) => t,
        Err(_) => {
            return Err(());
        },
    };
    let kubo_dir = state.get_kubo_dir();
    if !path_exists(&kubo_dir) {
        let _ = fs_create_dir_all(&kubo_dir);
    }
    Ok(target)
}

/// Copies a source path to its mirrored location, overwriting what is
/// there; a mirror node whose kind differs from the source's is deleted
/// first, and missing intermediate directories are created. An unmanaged
/// path is reported without any copying; a filesystem failure is reported
/// and abandoned for this path.
pub fn copy_to_kubo(dot_path: &KPath, state: &KuboManager<Locked>) -> (r: MirrorOutcome)
    requires
        state.wf(),
    ensures
        copy_outcome_ok(state@, dot_path@, r),
{
    let target = match get_target_dir(dot_path, state) {
        Ok(t) => t,
        Err(_) => {
            return MirrorOutcome::NotManaged;
        },
    };
    if path_is_dir(dot_path) {
        if path_exists(&target) && !path_is_dir(&target) {
            let _ = fs_remove_file(&target);
        }
        if !path_exists(&target) {
            let _ = fs_create_dir_all(&target);
        }
        match fs_copy_dir(dot_path, &target) {
            Ok(_) => MirrorOutcome::Copied(target),
            Err(_) => MirrorOutcome::CopyFailed(target),
        }
    } else {
        if path_is_dir(&target) {
            let _ = fs_remove_dir(&target);
        }
        proof {
            assert(state@.root.len() >= 1);
            assert(target@[0] == state@.root[0]);
        }
        let parent = target.parent_dir();
        let _ = fs_create_dir_all(&parent);
        match fs_copy_file(dot_path, &target) {
            Ok(_) => MirrorOutcome::Copied(target),
            Err(_) => MirrorOutcome::CopyFailed(target),
        }
    }
}

/// Removes the mirrored location of a source path: a mirror directory is
/// deleted recursively, anything else as a file. An unmanaged path is
/// reported without any deletion; a filesystem failure is reported and
/// abandoned for this path.
pub fn delete_from_kubo(dot_path: &KPath, state: &KuboManager<Locked>) -> (r: MirrorOutcome)
    requires
        state.wf(),
    ensures
        delete_outcome_ok(state@, dot_path@, r),
{
    let target = match get_target_dir(dot_path, state) {
        Ok(t) => t,
        Err(_) => {
            return MirrorOutcome::NotManaged;
        },
    };
    if path_is_dir(&target) {
        match fs_remove_dir(&target) {
            Ok(_) => MirrorOutcome::Deleted(target),
            Err(_) => MirrorOutcome::DeleteFailed(target),
        }
    } else {
        match fs_remove_file(&target) {
            Ok(_) => MirrorOutcome::Deleted(target),
            Err(_) => MirrorOutcome::DeleteFailed(target),
        }
    }
}

} // verus!
