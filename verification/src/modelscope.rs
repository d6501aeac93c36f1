//! ModelScope snapshots: where they are cached, what is asked for, and which files
//! are fetched in which order. The configuration comes first, so that it can be
//! looked at before the weights.

use crate::json::{
    field, field_of, integer_in, items_in, parse_json, parsed, string_in, trees, trees_index,
    array_in, Json, JsonTree,
};
use crate::paths::{join_path, path_join};
use crate::text::{char_from, char_position, chars_of, copy, dec, dec_text, same, substr};
use vstd::prelude::*;

verus! {

pub const MS_ENDPOINT: &'static str = "https://www.modelscope.cn";

pub const MS_REVISION: &'static str = "master";

/// The cache directory of `<owner>/<name>`; `None` where neither a cache nor a home
/// directory is known.
pub open spec fn cache_dir_of(
    cache: Option<&str>,
    home: Option<&str>,
    owner: Seq<char>,
    name: Seq<char>,
) -> Option<Seq<char>> {
    let root = match cache {
        Some(c) => Some(c@),
        None => match home {
            Some(h) => Some(path_join(h@, ".cache/modelscope"@)),
            None => None,
        },
    };
    match root {
        Some(r) => Some(path_join(path_join(path_join(r, "hub"@), owner), name)),
        None => None,
    }
}

/// The cache directory of `<owner>/<name>`.
pub fn model_cache_dir(
    cache: Option<&str>,
    home: Option<&str>,
    owner: &str,
    name: &str,
) -> (r: Option<String>)
    ensures
        match r {
            Some(d) => cache_dir_of(cache, home, owner@, name@) == Some(d@),
            None => cache_dir_of(cache, home, owner@, name@) is None,
        },
{
    let root = match cache {
        Some(c) => copy(c),
        None => match home {
            Some(h) => join_path(h, ".cache/modelscope"),
            None => {
                return None;
            },
        },
    };
    let hub = join_path(root.as_str(), "hub");
    let dir = join_path(hub.as_str(), owner);
    Some(join_path(dir.as_str(), name))
}

/// The value of an `Authorization` header.
pub fn bearer(token: &str) -> (r: String)
    ensures
        r@ == "Bearer "@ + token@,
{
    copy("Bearer ").concat(token)
}

/// Owner and name of a repository id; `Err` with a message where it is not one.
pub fn split_repo(repo: &str) -> (r: Result<(String, String), String>)
    ensures
        match char_from(repo@, '/', 0) {
            Some(i) => r matches Ok((owner, name)) && owner@ == repo@.subrange(0, i) && name@
                == repo@.subrange(i + 1, repo@.len() as int),
            None => r matches Err(e) && e@ == "modelscope: not an owner/name repo id: '"@ + repo@
                + "'"@,
        },
{
    let v = chars_of(repo);
    match char_position(&v, '/', 0) {
        Some(i) => Ok((substr(&v, 0, i), substr(&v, i + 1, v.len()))),
        None => {
            let mut e = copy("modelscope: not an owner/name repo id: '");
            e.append(repo);
            e.append("'");
            Err(e)
        },
    }
}

/// Where the files of a repository are listed.
pub fn list_url(repo: &str) -> (r: String)
    ensures
        r@ == MS_ENDPOINT@ + "/api/v1/models/"@ + repo@ + "/repo/files?Revision="@ + MS_REVISION@
            + "&Recursive=true"@,
{
    let mut out = copy(MS_ENDPOINT);
    out.append("/api/v1/models/");
    out.append(repo);
    out.append("/repo/files?Revision=");
    out.append(MS_REVISION);
    out.append("&Recursive=true");
    out
}

/// Where a file of a repository is fetched from.
pub fn file_url(repo: &str, path: &str) -> (r: String)
    ensures
        r@ == MS_ENDPOINT@ + "/api/v1/models/"@ + repo@ + "/repo?Revision="@ + MS_REVISION@
            + "&FilePath="@ + path@,
{
    let mut out = copy(MS_ENDPOINT);
    out.append("/api/v1/models/");
    out.append(repo);
    out.append("/repo?Revision=");
    out.append(MS_REVISION);
    out.append("&FilePath=");
    out.append(path);
    out
}

/// A file of a repository.
pub struct RepoFile {
    pub path: String,
    pub size: u64,
}

/// A file as plain values.
pub struct RepoFileView {
    pub path: Seq<char>,
    pub size: u64,
}

impl View for RepoFile {
    type V = RepoFileView;

    open spec fn view(&self) -> RepoFileView {
        RepoFileView { path: self.path@, size: self.size }
    }
}

pub open spec fn repo_files(v: Seq<RepoFile>) -> Seq<RepoFileView> {
    Seq::new(v.len(), |i: int| v[i]@)
}

/// The file that an entry of a listing stands for, if it is one and has a path.
pub open spec fn blob_of(t: JsonTree) -> Option<RepoFileView> {
    if string_in(field_of(Some(t), "Type"@)) == Some("blob"@) {
        match string_in(field_of(Some(t), "Path"@)) {
            Some(path) => Some(
                RepoFileView {
                    path,
                    size: match integer_in(field_of(Some(t), "Size"@)) {
                        Some(n) => n,
                        None => 0,
                    },
                },
            ),
            None => None,
        }
    } else {
        None
    }
}

pub open spec fn blobs_of(t: Seq<JsonTree>) -> Seq<RepoFileView>
    decreases t.len(),
{
    if t.len() == 0 {
        Seq::empty()
    } else {
        let rest = blobs_of(t.drop_last());
        match blob_of(t.last()) {
            Some(f) => rest.push(f),
            None => rest,
        }
    }
}

/// The entries of a listing; none where it has none.
pub open spec fn entries_of(meta: JsonTree) -> Seq<JsonTree> {
    match items_in(field_of(field_of(Some(meta), "Data"@), "Files"@)) {
        Some(s) => s,
        None => Seq::empty(),
    }
}

fn blob_in(e: &Json) -> (r: Option<RepoFile>)
    ensures
        match r {
            Some(f) => blob_of(e@) == Some(f@),
            None => blob_of(e@) is None,
        },
{
    match e.get_str("Type") {
        Some(t) => {
            if !same(t.as_str(), "blob") {
                return None;
            }
        },
        None => {
            return None;
        },
    }
    match e.get_str("Path") {
        Some(p) => {
            let size: u64 = match e.get_u64("Size") {
                Some(n) => n,
                None => 0,
            };
            Some(RepoFile { path: p.clone(), size })
        },
        None => None,
    }
}

/// The files of a listing.
pub fn blob_files(meta: &Json) -> (r: Vec<RepoFile>)
    ensures
        repo_files(r@) == blobs_of(entries_of(meta@)),
{
    let mut out: Vec<RepoFile> = Vec::new();
    assert(repo_files(out@) =~= Seq::empty());
    let items = match array_in(field(field(Some(meta), "Data"), "Files")) {
        Some(v) => v,
        None => {
            return out;
        },
    };
    proof {
        trees_index(items@);
    }
    let ghost all = trees(items@);
    let mut i: usize = 0;
    while i < items.len()
        invariant
            i <= items.len(),
            all.len() == items@.len(),
            forall|k: int| 0 <= k < items@.len() ==> #[trigger] all[k] == items@[k]@,
            repo_files(out@) == blobs_of(all.subrange(0, i as int)),
        decreases items.len() - i,
    {
        let ghost part = all.subrange(0, i + 1);
        assert(part.drop_last() =~= all.subrange(0, i as int));
        assert(part.last() == items@[i as int]@);
        let ghost before = out@;
        match blob_in(&items[i]) {
            Some(f) => {
                out.push(f);
                assert(repo_files(out@) =~= repo_files(before).push(f@));
            },
            None => {},
        }
        i = i + 1;
    }
    assert(all.subrange(0, i as int) =~= all);
    out
}

/// The files of a listing, as text; `None` where it is not JSON.
pub fn list_files(text: &str) -> (r: Option<Vec<RepoFile>>)
    ensures
        match parsed(text@) {
            Some(t) => r matches Some(v) && repo_files(v@) == blobs_of(entries_of(t)),
            None => r is None,
        },
{
    match parse_json(text) {
        Some(v) => Some(blob_files(&v)),
        None => None,
    }
}

pub open spec fn is_config(f: RepoFileView) -> bool {
    f.path == "config.json"@
}

pub open spec fn has_config(f: Seq<RepoFileView>) -> bool {
    exists|i: int| 0 <= i < f.len() && is_config(#[trigger] f[i])
}

/// The files but the configuration, in order.
pub open spec fn weights_of(f: Seq<RepoFileView>) -> Seq<RepoFileView>
    decreases f.len(),
{
    if f.len() == 0 {
        Seq::empty()
    } else {
        let rest = weights_of(f.drop_last());
        if is_config(f.last()) {
            rest
        } else {
            rest.push(f.last())
        }
    }
}

/// What to fetch once the configuration has been fetched and accepted: every other
/// file, in order. `Err` with a message where there is no configuration.
pub fn ensure_snapshot(repo: &str, files: &Vec<RepoFile>) -> (r: Result<Vec<RepoFile>, String>)
    ensures
        match r {
            Ok(rest) => has_config(repo_files(files@)) && repo_files(rest@) == weights_of(
                repo_files(files@),
            ),
            Err(e) => !has_config(repo_files(files@)) && e@ == "modelscope: "@ + repo@
                + " has no config.json"@,
        },
{
    let ghost all = repo_files(files@);
    let mut out: Vec<RepoFile> = Vec::new();
    let mut config = false;
    let mut i: usize = 0;
    assert(repo_files(out@) =~= Seq::empty());
    while i < files.len()
        invariant
            i <= files.len(),
            all == repo_files(files@),
            repo_files(out@) == weights_of(all.subrange(0, i as int)),
            config == has_config(all.subrange(0, i as int)),
        decreases files.len() - i,
    {
        let ghost part = all.subrange(0, i + 1);
        let ghost done = all.subrange(0, i as int);
        assert(part.drop_last() =~= done);
        assert(part.last() == files@[i as int]@);
        let ghost before = out@;
        let f = &files[i];
        if same(f.path.as_str(), "config.json") {
            config = true;
            assert(is_config(part[i as int]));
        } else {
            out.push(RepoFile { path: f.path.clone(), size: f.size });
            assert(repo_files(out@) =~= repo_files(before).push(part.last()));
        }
        proof {
            if has_config(done) {
                let k = choose|k: int| 0 <= k < done.len() && is_config(#[trigger] done[k]);
                assert(part[k] == done[k]);
                assert(has_config(part));
            }
            if has_config(part) {
                let k = choose|k: int| 0 <= k < part.len() && is_config(#[trigger] part[k]);
                if k < i {
                    assert(done[k] == part[k]);
                }
            }
        }
        i = i + 1;
    }
    assert(all.subrange(0, i as int) =~= all);
    if config {
        Ok(out)
    } else {
        let mut e = copy("modelscope: ");
        e.append(repo);
        e.append(" has no config.json");
        Err(e)
    }
}

/// A file that need not be fetched again: its size is known and is the size on
/// disk.
pub fn is_cached(size: u64, on_disk: Option<u64>) -> (r: bool)
    ensures
        r == (size != 0 && on_disk == Some(size)),
{
    match on_disk {
        Some(n) => size != 0 && n == size,
        None => false,
    }
}

/// The progress mark of file `i`, counted from zero, of `total`.
pub fn progress(i: usize, total: usize) -> (r: String)
    requires
        i < usize::MAX,
    ensures
        r@ == "["@ + dec_text((i + 1) as nat) + "/"@ + dec_text(total as nat) + "]"@,
{
    let mut out = copy("[");
    out.append(dec((i + 1) as u64).as_str());
    out.append("/");
    out.append(dec(total as u64).as_str());
    out.append("]");
    out
}

// ---------------------------------------------------------------------------
// Laws
// ---------------------------------------------------------------------------

/// The configuration is fetched once, before everything else: it is never among
/// the files that follow, and every other file is.
pub proof fn the_configuration_comes_first(f: Seq<RepoFileView>, k: int)
    requires
        0 <= k < f.len(),
    ensures
        forall|i: int| 0 <= i < weights_of(f).len() ==> !is_config(#[trigger] weights_of(f)[i]),
        !is_config(f[k]) ==> weights_of(f).contains(f[k]),
    decreases f.len(),
{
    let init = f.drop_last();
    let rest = weights_of(init);
    let all = weights_of(f);
    if k < init.len() {
        the_configuration_comes_first(init, k);
        assert(init[k] == f[k]);
        if !is_config(f[k]) {
            let m = choose|m: int| 0 <= m < rest.len() && rest[m] == f[k];
            assert(all[m] == f[k]);
        }
    } else {
        if init.len() > 0 {
            the_configuration_comes_first(init, 0);
        }
        if !is_config(f[k]) {
            assert(all[rest.len() as int] == f[k]);
        }
    }
    assert forall|i: int| 0 <= i < all.len() implies !is_config(#[trigger] all[i]) by {
        if i < rest.len() {
            assert(all[i] == rest[i]);
        }
    }
}

/// The files of a listing are listed in order: an entry that is a file and has a
/// path, with its size where it is known; a directory is not.
pub proof fn files_are_listed(a: Seq<JsonTree>, b: Seq<JsonTree>, x: JsonTree)
    ensures
        blobs_of(a + b) == blobs_of(a) + blobs_of(b),
        string_in(field_of(Some(x), "Type"@)) != Some("blob"@) ==> blobs_of(seq![x]).len() == 0,
        string_in(field_of(Some(x), "Path"@)) is None ==> blobs_of(seq![x]).len() == 0,
    decreases b.len(),
{
    let none = Seq::<JsonTree>::empty();
    assert(seq![x].drop_last() =~= none);
    assert(seq![x].last() == x);
    assert(blobs_of(none) =~= Seq::empty());
    if string_in(field_of(Some(x), "Type"@)) != Some("blob"@) {
        assert(blobs_of(seq![x]) =~= Seq::empty());
    }
    if string_in(field_of(Some(x), "Path"@)) is None {
        assert(blobs_of(seq![x]) =~= Seq::empty());
    }
    if b.len() == 0 {
        assert(a + b =~= a);
        assert(blobs_of(a) + blobs_of(b) =~= blobs_of(a));
    } else {
        files_are_listed(a, b.drop_last(), x);
        assert((a + b).drop_last() =~= a + b.drop_last());
        assert((a + b).last() == b.last());
        assert(blobs_of(a + b) =~= blobs_of(a) + blobs_of(b));
    }
}


/// The files but the configuration follow in their order.
pub proof fn the_others_follow_in_order(a: Seq<RepoFileView>, b: Seq<RepoFileView>, x: RepoFileView)
    ensures
        weights_of(a + b) == weights_of(a) + weights_of(b),
        x.path == "config.json"@ ==> weights_of(seq![x]).len() == 0,
        x.path != "config.json"@ ==> weights_of(seq![x]) == seq![x],
    decreases b.len(),
{
    let none = Seq::<RepoFileView>::empty();
    assert(seq![x].drop_last() =~= none);
    assert(seq![x].last() == x);
    assert(weights_of(none) =~= Seq::empty());
    if x.path == "config.json"@ {
        assert(weights_of(seq![x]) =~= Seq::empty());
    }
    if x.path != "config.json"@ {
        assert(weights_of(seq![x]) =~= seq![x]);
    }
    if b.len() == 0 {
        assert(a + b =~= a);
        assert(weights_of(a) + weights_of(b) =~= weights_of(a));
    } else {
        the_others_follow_in_order(a, b.drop_last(), x);
        assert((a + b).drop_last() =~= a + b.drop_last());
        assert((a + b).last() == b.last());
        assert(weights_of(a + b) =~= weights_of(a) + weights_of(b));
    }
}


/// A file has the path and the size that its entry names.
pub proof fn a_file_is_what_its_entry_names(t: JsonTree, path: Seq<char>)
    requires
        string_in(field_of(Some(t), "Type"@)) == Some("blob"@),
        string_in(field_of(Some(t), "Path"@)) == Some(path),
    ensures
        blob_of(t) matches Some(f) && f.path == path && (integer_in(
            field_of(Some(t), "Size"@),
        ) matches Some(n) ==> f.size == n) && (integer_in(field_of(Some(t), "Size"@)) is None
            ==> f.size == 0),
        blobs_of(seq![t]) == seq![blob_of(t)->0],
{
    let none = Seq::<JsonTree>::empty();
    assert(seq![t].drop_last() =~= none);
    assert(seq![t].last() == t);
    assert(blobs_of(none) =~= Seq::empty());
    assert(blobs_of(seq![t]) =~= seq![blob_of(t)->0]);
}

/// A model is cached below the cache that was set, else below the home directory, by
/// its owner and its name.
pub proof fn a_model_is_cached_by_its_name(c: &str, h: &str, owner: Seq<char>, name: Seq<char>)
    ensures
        cache_dir_of(Some(c), Some(h), owner, name) == Some(
            path_join(path_join(path_join(c@, "hub"@), owner), name),
        ),
        cache_dir_of(None, Some(h), owner, name) == Some(
            path_join(
                path_join(path_join(path_join(h@, ".cache/modelscope"@), "hub"@), owner),
                name,
            ),
        ),
        cache_dir_of(None, None, owner, name) is None,
{
}

/// The entries of a listing are those under its data; a listing without has none.
pub proof fn a_listing_has_its_entries(meta: JsonTree, l: Seq<JsonTree>)
    ensures
        field_of(field_of(Some(meta), "Data"@), "Files"@) == Some(JsonTree::Array(l)) ==> entries_of(
            meta,
        ) == l,
        field_of(field_of(Some(meta), "Data"@), "Files"@) is None ==> entries_of(meta).len() == 0,
{
}

/// A repository has a configuration where one of its files is called so.
pub proof fn a_configuration_is_found_by_its_name(f: Seq<RepoFileView>, k: int)
    ensures
        0 <= k < f.len() && f[k].path == "config.json"@ ==> has_config(f),
        (forall|i: int| 0 <= i < f.len() ==> (#[trigger] f[i]).path != "config.json"@)
            ==> !has_config(f),
{
    if 0 <= k < f.len() && f[k].path == "config.json"@ {
        assert(is_config(f[k]));
    }
}

} // verus!
