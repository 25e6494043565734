//! Names of files: what is shown, what stands beside the output, and what is asked for.

use vstd::prelude::*;
use vstd::string::*;

use crate::text;
use crate::text::{characters, collect, cut_at, ends_with, last_start};

verus! {

/// The last component of `path`, unless there is none or it is the parent directory. Slashes
/// at the end and components that name the current directory do not count.
pub open spec fn final_component(path: Seq<char>) -> Option<Seq<char>>
    decreases path.len(),
{
    let name = text::after_last(path, '/');
    if name == seq!['.', '.'] {
        None
    } else if name.len() > 0 && name != seq!['.'] {
        Some(name)
    } else if name.len() < path.len() {
        final_component(path.take(path.len() - name.len() - 1))
    } else {
        None
    }
}

/// The last component of `path`, or all of it where it has none.
pub open spec fn name_of(path: Seq<char>) -> Seq<char> {
    match final_component(path) {
        Some(name) => name,
        None => path,
    }
}

/// The file name that is shown for the output at `path`.
pub open spec fn shown_name(path: Seq<char>) -> Seq<char> {
    let name = name_of(path);
    if text::has_suffix(name, ".part"@) {
        name.take(name.len() - ".part"@.len())
    } else {
        name
    }
}

/// The last component of the path that `url` names.
pub open spec fn requested_name(url: Seq<char>) -> Seq<char> {
    text::after_last(text::before_first(text::before_first(url, '#'), '?'), '/')
}

/// The download is that of a database signature.
pub open spec fn signature_download(url: Seq<char>, output: Seq<char>) -> bool {
    text::has_suffix(requested_name(url), ".db.sig"@) && text::has_suffix(
        name_of(output),
        ".db.sig.part"@,
    )
}

/// The last component of `path`, or all of it where it has none.
pub fn file_name(path: &str) -> (name: String)
    ensures
        name@ == name_of(path@),
{
    let all: Vec<char> = characters(path);
    let mut end: usize = all.len();
    assert(all@.subrange(0, end as int) =~= path@);
    loop
        invariant
            end <= all@.len(),
            all@ == path@,
            final_component(all@.subrange(0, end as int)) == final_component(path@),
        decreases end,
    {
        let part: &[char] = vstd::slice::slice_subrange(all.as_slice(), 0, end);
        let start: usize = last_start(part, '/');
        let ghost name = text::after_last(part@, '/');
        assert(name =~= all@.subrange(start as int, end as int));
        let dot: bool = end - start == 1 && all[start] == '.';
        let parent: bool = end - start == 2 && all[start] == '.' && all[start + 1] == '.';
        assert(dot == (name == seq!['.'])) by {
            if dot {
                assert(name =~= seq!['.']);
            } else if name == seq!['.'] {
                assert(name[0] == '.');
            }
        }
        assert(parent == (name == seq!['.', '.'])) by {
            if parent {
                assert(name =~= seq!['.', '.']);
            } else if name == seq!['.', '.'] {
                assert(name[0] == '.' && name[1] == '.');
            }
        }
        if parent {
            return path.to_owned();
        }
        if start < end && !dot {
            return collect(all.as_slice(), start, end);
        }
        if start == 0 {
            return path.to_owned();
        }
        assert(part@.take(part@.len() - name.len() - 1) =~= all@.subrange(0, start - 1));
        end = start - 1;
    }
}

/// The file name that is shown for the output at `path`: its last component, without the
/// suffix of an unfinished download.
pub fn display_filename(output: &str) -> (name: String)
    ensures
        name@ == shown_name(output@),
{
    let name: String = file_name(output);
    if ends_with(name.as_str(), ".part") {
        let all: Vec<char> = characters(name.as_str());
        proof {
            reveal_strlit(".part");
        }
        assert(all@.subrange(0, all@.len() - 5) =~= name@.take(name@.len() - 5));
        return collect(all.as_slice(), 0, all.len() - 5);
    }
    name
}

/// The download is that of a database signature, by the names that are asked for and written.
pub fn is_database_signature(url: &str, output: &str) -> (signature: bool)
    ensures
        signature == signature_download(url@, output@),
{
    let path: String = cut_at(cut_at(url, '#').as_str(), '?');
    let all: Vec<char> = characters(path.as_str());
    let start: usize = last_start(all.as_slice(), '/');
    let requested: String = collect(all.as_slice(), start, all.len());
    assert(all@.subrange(start as int, all@.len() as int) =~= all@.skip(start as int));
    ends_with(requested.as_str(), ".db.sig") && ends_with(
        file_name(output).as_str(),
        ".db.sig.part",
    )
}

/// Where the resume state of the output is kept.
pub fn sidecar_path(output: &str) -> (path: String)
    ensures
        path@ == output@ + ".bytehaul"@,
{
    let mut path: String = output.to_owned();
    path.append(".bytehaul");
    path
}

/// Where the lock of the output is kept.
pub fn lock_path(output: &str) -> (path: String)
    ensures
        path@ == output@ + ".rustypac.lock"@,
{
    let mut path: String = output.to_owned();
    path.append(".rustypac.lock");
    path
}

} // verus!
