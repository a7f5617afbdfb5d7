//! Which files an upload takes, and how it sends them in parts.
use vstd::prelude::*;

use crate::multipart::{
    consistent, next_action, stepped, MultipartAction, MultipartEvent, MultipartView,
};
use crate::upload::{
    content_type, enumerate_found, enumerated, low_extension, Enumeration, FileView, Found,
    PathListing,
};

verus! {

/// `list` holds the file at `path` with this size.
pub open spec fn takes(list: Seq<FileView>, path: Seq<char>, size: u64) -> bool {
    exists|k: int|
        0 <= k < list.len() && (#[trigger] list[k]).absolute_path == path && list[k].size == size
}

/// A size of at most `max_mb` megabytes of 1024 times 1024 bytes.
pub open spec fn is_within(size: u64, max_mb: u64) -> bool {
    size <= 1_048_576 * max_mb
}

/// What was found in a directory is taken, or is no file.
pub open spec fn is_fine(x: Found, max_mb: u64) -> bool {
    match x {
        Found::Broken { reason } => false,
        Found::NotAFile => true,
        Found::Unreadable { path, reason } => false,
        Found::File { path, relative, name, size } => is_within(size, max_mb),
    }
}

/// A path that the user gave is a file of a permitted size, or a directory of such files.
pub open spec fn is_accepted(x: PathListing, max_mb: u64) -> bool {
    match x {
        PathListing::Unreachable { path, reason } => false,
        PathListing::File { path, name, size } => is_within(size, max_mb),
        PathListing::Directory { path, found } => forall|k: int|
            0 <= k < found@.len() ==> is_fine(#[trigger] found@[k], max_mb),
        PathListing::Other { path } => false,
    }
}

/// `list` takes what stands at `x`.
pub open spec fn takes_all_of(list: Seq<FileView>, x: PathListing) -> bool {
    match x {
        PathListing::File { path, name, size } => takes(list, path@, size),
        PathListing::Directory { path, found } => forall|k: int|
            0 <= k < found@.len() ==> takes_found(list, #[trigger] found@[k]),
        _ => true,
    }
}

/// `list` takes the file that was found, where it is one.
pub open spec fn takes_found(list: Seq<FileView>, x: Found) -> bool {
    match x {
        Found::File { path, relative, name, size } => takes(list, path@, size),
        _ => true,
    }
}

proof fn one_more_is_taken(list: Seq<FileView>, x: FileView)
    ensures
        takes(list.push(x), x.absolute_path, x.size),
        forall|p: Seq<char>, size: u64| #[trigger]
            takes(list, p, size) ==> takes(list.push(x), p, size),
{
    assert(list.push(x)[list.len() as int] == x);
    assert forall|p: Seq<char>, size: u64| #[trigger] takes(list, p, size) implies takes(
        list.push(x),
        p,
        size,
    ) by {
        let k = choose|k: int|
            0 <= k < list.len() && (#[trigger] list[k]).absolute_path == p && list[k].size == size;
        assert(list.push(x)[k] == list[k]);
    }
}

proof fn found_files_are_taken(
    files: Seq<FileView>,
    dir: Seq<char>,
    found: Seq<Found>,
    max_mb: u64,
    n: int,
)
    requires
        0 <= n <= found.len(),
        forall|k: int| 0 <= k < files.len() ==> is_within((#[trigger] files[k]).size, max_mb),
    ensures
        ({
            let e = enumerate_found(Enumeration::Files(files), dir, found, max_mb, n);
            &&& e is Files <==> forall|k: int|
                0 <= k < n ==> is_fine(#[trigger] found[k], max_mb)
            &&& e is Files ==> {
                &&& forall|k: int|
                    0 <= k < e->Files_0.len() ==> is_within((#[trigger] e->Files_0[k]).size, max_mb)
                &&& forall|k: int| 0 <= k < n ==> takes_found(e->Files_0, #[trigger] found[k])
                &&& forall|p: Seq<char>, size: u64| #[trigger]
                    takes(files, p, size) ==> takes(e->Files_0, p, size)
            }
        }),
    decreases n,
{
    if n > 0 {
        found_files_are_taken(files, dir, found, max_mb, n - 1);
        let before = enumerate_found(Enumeration::Files(files), dir, found, max_mb, n - 1);
        let e = enumerate_found(Enumeration::Files(files), dir, found, max_mb, n);
        let x = found[n - 1];
        if before is Files {
            let b = before->Files_0;
            if let Found::File { path, relative, name, size } = x {
                if is_within(size, max_mb) {
                    let list = e->Files_0;
                    assert(list.drop_last() =~= b);
                    assert(list =~= b.push(list.last()));
                    one_more_is_taken(b, list.last());
                }
            }
            if e is Files {
                assert forall|k: int| 0 <= k < n implies takes_found(
                    e->Files_0,
                    #[trigger] found[k],
                ) by {
                    if k < n - 1 {
                        assert(takes_found(b, found[k]));
                    }
                }
            }
            assert(forall|k: int| 0 <= k < n - 1 ==> is_fine(#[trigger] found[k], max_mb));
            if e is Failed {
                assert(!is_fine(found[n - 1], max_mb));
            }
        } else {
            assert(exists|k: int| 0 <= k < n - 1 && !is_fine(#[trigger] found[k], max_mb));
        }
    }
}

proof fn first_paths_are_taken(listings: Seq<PathListing>, max_mb: u64, n: int)
    requires
        0 <= n <= listings.len(),
    ensures
        ({
            let e = enumerated(listings, max_mb, n);
            &&& e is Files <==> forall|i: int|
                0 <= i < n ==> is_accepted(#[trigger] listings[i], max_mb)
            &&& e is Files ==> {
                &&& forall|k: int|
                    0 <= k < e->Files_0.len() ==> is_within((#[trigger] e->Files_0[k]).size, max_mb)
                &&& forall|i: int| 0 <= i < n ==> takes_all_of(e->Files_0, #[trigger] listings[i])
            }
        }),
    decreases n,
{
    if n > 0 {
        first_paths_are_taken(listings, max_mb, n - 1);
        let before = enumerated(listings, max_mb, n - 1);
        let e = enumerated(listings, max_mb, n);
        let x = listings[n - 1];
        if before is Files {
            let b = before->Files_0;
            if let PathListing::File { path, name, size } = x {
                if is_within(size, max_mb) {
                    let list = e->Files_0;
                    assert(list.drop_last() =~= b);
                    assert(list =~= b.push(list.last()));
                    one_more_is_taken(b, list.last());
                }
            }
            if let PathListing::Directory { path, found } = x {
                found_files_are_taken(b, path@, found@, max_mb, found@.len() as int);
            }
            if e is Files {
                assert(forall|p: Seq<char>, size: u64| #[trigger]
                    takes(b, p, size) ==> takes(e->Files_0, p, size));
                assert forall|i: int| 0 <= i < n implies takes_all_of(
                    e->Files_0,
                    #[trigger] listings[i],
                ) by {
                    if i < n - 1 {
                        assert(takes_all_of(b, listings[i]));
                        if let PathListing::Directory { path, found } = listings[i] {
                            assert forall|k: int| 0 <= k < found@.len() implies takes_found(
                                e->Files_0,
                                #[trigger] found@[k],
                            ) by {
                                assert(takes_found(b, found@[k]));
                            }
                        }
                    }
                }
                assert(is_accepted(listings[n - 1], max_mb));
            } else {
                assert(!is_accepted(listings[n - 1], max_mb));
            }
        } else {
            assert(exists|i: int| 0 <= i < n - 1 && !is_accepted(#[trigger] listings[i], max_mb));
        }
    }
}

/// An upload takes every file that the user named or that stands below a directory the user named,
/// or it is refused: where a path cannot be reached or is neither file nor directory, where a
/// directory cannot be walked, and where a file is larger than permitted.
pub proof fn uploads_take_every_file(listings: Seq<PathListing>, max_mb: u64)
    ensures
        ({
            let e = enumerated(listings, max_mb, listings.len() as int);
            &&& e is Files <==> forall|i: int|
                0 <= i < listings.len() ==> is_accepted(#[trigger] listings[i], max_mb)
            &&& e is Files ==> {
                &&& forall|k: int|
                    0 <= k < e->Files_0.len() ==> is_within((#[trigger] e->Files_0[k]).size, max_mb)
                &&& forall|i: int|
                    0 <= i < listings.len() ==> takes_all_of(e->Files_0, #[trigger] listings[i])
            }
        }),
{
    first_paths_are_taken(listings, max_mb, listings.len() as int);
}

// ---------------------------------------------------------------------------------------------
// Parts
// ---------------------------------------------------------------------------------------------
/// While an upload is under way, the next part is sent off as long as fewer than eight are on their
/// way. Once all have been sent off, a failure calls the upload off, and without one it is completed
/// when the last part has arrived.
pub proof fn eight_parts_are_on_their_way(v: MultipartView)
    requires
        consistent(v),
        v.phase is Active,
    ensures
        v.started < v.num_parts && v.waiting.len() < 8 ==> next_action(v) == MultipartAction::Start(
            (v.started + 1) as u64,
        ),
        v.started < v.num_parts && v.waiting.len() == 8 ==> next_action(v)
            == MultipartAction::Wait,
        v.waiting.len() <= 8,
        next_action(v) is Abort <==> v.started == v.num_parts && v.failed is Some,
        next_action(v) is Complete <==> v.failed is None && v.collected.len() == v.num_parts,
{
}

/// The first failure of a part is the one that is told, and a part that fails is not collected.
pub proof fn the_first_failure_is_told(v: MultipartView, e: MultipartEvent)
    requires
        consistent(v),
        e is PartFailed,
    ensures
        v.failed is Some ==> stepped(v, e).failed == v.failed,
        stepped(v, e).collected == v.collected,
        stepped(v, e).phase == v.phase,
        stepped(v, e).started == v.started,
{
}

// ---------------------------------------------------------------------------------------------
// Content types
// ---------------------------------------------------------------------------------------------
/// Reports, pages, pictures and archives are sent under their content types, and what no extension
/// tells as bytes.
pub proof fn extensions_tell_content_types(path: Seq<char>)
    ensures
        ({
            let e = low_extension(path);
            let t = content_type(path);
            &&& e == Some("html"@) || e == Some("htm"@) ==> t == "text/html"@
            &&& e == Some("xml"@) || e == Some("trx"@) ==> t == "application/xml"@
            &&& e == Some("json"@) ==> t == "application/json"@
            &&& e == Some("css"@) ==> t == "text/css"@
            &&& e == Some("js"@) || e == Some("mjs"@) ==> t == "application/javascript"@
            &&& e == Some("svg"@) ==> t == "image/svg+xml"@
            &&& e == Some("png"@) ==> t == "image/png"@
            &&& e == Some("jpg"@) || e == Some("jpeg"@) ==> t == "image/jpeg"@
            &&& e == Some("gif"@) ==> t == "image/gif"@
            &&& e == Some("ico"@) ==> t == "image/x-icon"@
            &&& e == Some("webp"@) ==> t == "image/webp"@
            &&& e == Some("webm"@) ==> t == "video/webm"@
            &&& e == Some("mp4"@) ==> t == "video/mp4"@
            &&& e == Some("woff"@) ==> t == "font/woff"@
            &&& e == Some("woff2"@) ==> t == "font/woff2"@
            &&& e == Some("ttf"@) ==> t == "font/ttf"@
            &&& e == Some("eot"@) ==> t == "application/vnd.ms-fontobject"@
            &&& e == Some("gz"@) ==> t == "application/gzip"@
            &&& e == Some("zip"@) ==> t == "application/zip"@
            &&& e == Some("tar"@) ==> t == "application/x-tar"@
            &&& e == Some("txt"@) || e == Some("lcov"@) || e == Some("info"@) ==> t
                == "text/plain"@
            &&& e == Some("md"@) ==> t == "text/markdown"@
            &&& e == Some("csv"@) ==> t == "text/csv"@
            &&& e == Some("webmanifest"@) ==> t == "application/manifest+json"@
            &&& e is None ==> t == "application/octet-stream"@
        }),
{
    spell();
}

proof fn spell()
    ensures
        "html"@.len() == 4 && "html"@[0] == 'h' && "html"@[1] == 't' && "html"@[2] == 'm'
            && "html"@[3] == 'l',
        "htm"@.len() == 3 && "htm"@[0] == 'h' && "htm"@[1] == 't' && "htm"@[2] == 'm',
        "xml"@.len() == 3 && "xml"@[0] == 'x' && "xml"@[1] == 'm' && "xml"@[2] == 'l',
        "trx"@.len() == 3 && "trx"@[0] == 't' && "trx"@[1] == 'r' && "trx"@[2] == 'x',
        "json"@.len() == 4 && "json"@[0] == 'j' && "json"@[1] == 's' && "json"@[2] == 'o'
            && "json"@[3] == 'n',
        "css"@.len() == 3 && "css"@[0] == 'c' && "css"@[1] == 's' && "css"@[2] == 's',
        "js"@.len() == 2 && "js"@[0] == 'j' && "js"@[1] == 's',
        "mjs"@.len() == 3 && "mjs"@[0] == 'm' && "mjs"@[1] == 'j' && "mjs"@[2] == 's',
        "svg"@.len() == 3 && "svg"@[0] == 's' && "svg"@[1] == 'v' && "svg"@[2] == 'g',
        "png"@.len() == 3 && "png"@[0] == 'p' && "png"@[1] == 'n' && "png"@[2] == 'g',
        "jpg"@.len() == 3 && "jpg"@[0] == 'j' && "jpg"@[1] == 'p' && "jpg"@[2] == 'g',
        "jpeg"@.len() == 4 && "jpeg"@[0] == 'j' && "jpeg"@[1] == 'p' && "jpeg"@[2] == 'e'
            && "jpeg"@[3] == 'g',
        "gif"@.len() == 3 && "gif"@[0] == 'g' && "gif"@[1] == 'i' && "gif"@[2] == 'f',
        "ico"@.len() == 3 && "ico"@[0] == 'i' && "ico"@[1] == 'c' && "ico"@[2] == 'o',
        "webp"@.len() == 4 && "webp"@[0] == 'w' && "webp"@[1] == 'e' && "webp"@[2] == 'b'
            && "webp"@[3] == 'p',
        "webm"@.len() == 4 && "webm"@[0] == 'w' && "webm"@[1] == 'e' && "webm"@[2] == 'b'
            && "webm"@[3] == 'm',
        "mp4"@.len() == 3 && "mp4"@[0] == 'm' && "mp4"@[1] == 'p' && "mp4"@[2] == '4',
        "woff"@.len() == 4 && "woff"@[0] == 'w' && "woff"@[1] == 'o' && "woff"@[2] == 'f'
            && "woff"@[3] == 'f',
        "woff2"@.len() == 5 && "woff2"@[0] == 'w' && "woff2"@[1] == 'o' && "woff2"@[2] == 'f'
            && "woff2"@[3] == 'f' && "woff2"@[4] == '2',
        "ttf"@.len() == 3 && "ttf"@[0] == 't' && "ttf"@[1] == 't' && "ttf"@[2] == 'f',
        "eot"@.len() == 3 && "eot"@[0] == 'e' && "eot"@[1] == 'o' && "eot"@[2] == 't',
        "gz"@.len() == 2 && "gz"@[0] == 'g' && "gz"@[1] == 'z',
        "zip"@.len() == 3 && "zip"@[0] == 'z' && "zip"@[1] == 'i' && "zip"@[2] == 'p',
        "tar"@.len() == 3 && "tar"@[0] == 't' && "tar"@[1] == 'a' && "tar"@[2] == 'r',
        "txt"@.len() == 3 && "txt"@[0] == 't' && "txt"@[1] == 'x' && "txt"@[2] == 't',
        "lcov"@.len() == 4 && "lcov"@[0] == 'l' && "lcov"@[1] == 'c' && "lcov"@[2] == 'o'
            && "lcov"@[3] == 'v',
        "info"@.len() == 4 && "info"@[0] == 'i' && "info"@[1] == 'n' && "info"@[2] == 'f'
            && "info"@[3] == 'o',
        "md"@.len() == 2 && "md"@[0] == 'm' && "md"@[1] == 'd',
        "csv"@.len() == 3 && "csv"@[0] == 'c' && "csv"@[1] == 's' && "csv"@[2] == 'v',
        "webmanifest"@.len() == 11 && "webmanifest"@[0] == 'w' && "webmanifest"@[1] == 'e'
            && "webmanifest"@[2] == 'b' && "webmanifest"@[3] == 'm' && "webmanifest"@[4] == 'a',
{
    reveal_strlit("html");
    reveal_strlit("htm");
    reveal_strlit("xml");
    reveal_strlit("trx");
    reveal_strlit("json");
    reveal_strlit("css");
    reveal_strlit("js");
    reveal_strlit("mjs");
    reveal_strlit("svg");
    reveal_strlit("png");
    reveal_strlit("jpg");
    reveal_strlit("jpeg");
    reveal_strlit("gif");
    reveal_strlit("ico");
    reveal_strlit("webp");
    reveal_strlit("webm");
    reveal_strlit("mp4");
    reveal_strlit("woff");
    reveal_strlit("woff2");
    reveal_strlit("ttf");
    reveal_strlit("eot");
    reveal_strlit("gz");
    reveal_strlit("zip");
    reveal_strlit("tar");
    reveal_strlit("txt");
    reveal_strlit("lcov");
    reveal_strlit("info");
    reveal_strlit("md");
    reveal_strlit("csv");
    reveal_strlit("webmanifest");
}

} // verus!
