//! Where a bundled helper binary (yt-dlp, ffmpeg, whisper-cli) is looked for
//! when the host's `PATH` does not have it.
use vstd::prelude::*;
use vstd::string::StringExecFns;
use crate::downloader::{
    owned, views,
};

verus! {

broadcast use vstd::string::group_string_axioms;

/// The places, relative to the app's resource directory, where the binary
/// `name` may be bundled, in the order they are tried: the directory itself,
/// its `binaries` folder, and there under the target-suffixed name.
pub open spec fn candidate_paths(name: Seq<char>, triple: Seq<char>) -> Seq<Seq<Seq<char>>> {
    seq![seq![name], seq!["binaries"@, name], seq!["binaries"@, name + "-"@ + triple]]
}

/// The path components of each bundled location of the binary `name` built
/// for `target_triple`, in the order they are tried.
pub fn sidecar_candidates(name: &str, target_triple: &str) -> (r: Vec<Vec<String>>)
    ensures
        r@.len() == 3,
        forall|i: int| 0 <= i < 3 ==> views(#[trigger] r@[i]@) == candidate_paths(
            name@,
            target_triple@,
        )[i],
{
    let mut first: Vec<String> = Vec::new();
    first.push(owned(name));
    let mut second: Vec<String> = Vec::new();
    second.push(owned("binaries"));
    second.push(owned(name));
    let mut third: Vec<String> = Vec::new();
    third.push(owned("binaries"));
    let mut suffixed = owned(name);
    suffixed.append("-");
    suffixed.append(target_triple);
    third.push(suffixed);
    let ghost c = candidate_paths(name@, target_triple@);
    assert(views(first@) =~= c[0]);
    assert(views(second@) =~= c[1]);
    assert(views(third@) =~= c[2]);
    let mut r: Vec<Vec<String>> = Vec::new();
    r.push(first);
    r.push(second);
    r.push(third);
    r
}

/// The location used when no candidate exists: the `binaries` folder.
pub fn sidecar_fallback(name: &str) -> (r: Vec<String>)
    ensures
        views(r@) == seq!["binaries"@, name@],
{
    let mut r: Vec<String> = Vec::new();
    r.push(owned("binaries"));
    r.push(owned(name));
    assert(views(r@) =~= seq!["binaries"@, name@]);
    r
}

/// The first candidate that exists, given which of them exist.
pub fn first_existing(exists: &Vec<bool>) -> (r: Option<usize>)
    ensures
        r matches Some(i) ==> i < exists.len() && exists@[i as int] && forall|j: int|
            0 <= j < i ==> !exists@[j],
        r is None ==> forall|j: int| 0 <= j < exists.len() ==> !exists@[j],
{
    let mut i: usize = 0;
    while i < exists.len()
        invariant
            i <= exists.len(),
            forall|j: int| 0 <= j < i ==> !exists@[j],
        decreases exists.len() - i,
    {
        if exists[i] {
            return Some(i);
        }
        i = i + 1;
    }
    None
}

} // verus!
