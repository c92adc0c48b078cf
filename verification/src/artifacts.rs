//! Which files of a workspace are kept, and under which names.

use crate::config::ArtifactConfig;
use crate::numbers;
use crate::outside::{self, uuid_to_text};
use crate::paths;
use crate::state::ArtifactRef;
use crate::text;
use vstd::prelude::*;

verus! {

/// A file that is to be kept.
#[derive(Debug, Clone)]
pub struct Kept {
    /// Where it is.
    pub source: String,
    /// Where it is copied to.
    pub dest: String,
    /// Its path among the artifacts of its build.
    pub name: String,
}

/// The pattern that is searched for: one that is not absolute is taken under the workspace.
pub fn search_pattern(workspace: &str, pattern: &str) -> (res: String)
    ensures
        res@ == paths::joined(workspace@, pattern@),
{
    paths::join(workspace, pattern)
}

/// The name of a file, or `artifact` where it has none.
pub open spec fn plain_name(source: Seq<char>) -> Seq<char> {
    match paths::last_component(source) {
        Some(name) => name,
        None => "artifact"@,
    }
}

/// A name with a suffix put before its extension. A dot at the start of the name begins no
/// extension.
pub open spec fn suffixed(name: Seq<char>, suffix: Seq<char>) -> Seq<char> {
    if suffix.len() == 0 {
        name
    } else {
        match text::split_at_last(name, '.') {
            Some((stem, ext)) => if stem.len() > 0 {
                stem + "-"@ + suffix + "."@ + ext
            } else {
                name + "-"@ + suffix
            },
            None => name + "-"@ + suffix,
        }
    }
}

/// A suffix with the number of the build in it.
pub open spec fn numbered(suffix: Seq<char>, number: u64) -> Seq<char> {
    text::replaced(suffix, "{build_number}"@, numbers::decimal(number as nat))
}

/// The path under which a file is kept. With a suffix it is the file's name, with the suffix in
/// it; without one it is the path under the workspace, or the name of a file from elsewhere.
pub open spec fn kept_path(
    source: Seq<char>,
    workspace: Seq<char>,
    suffix: Option<Seq<char>>,
    number: u64,
) -> Seq<char> {
    match suffix {
        Some(s) => suffixed(plain_name(source), numbered(s, number)),
        None => match paths::relative_to(source, workspace) {
            Some(rel) => rel,
            None => plain_name(source),
        },
    }
}

/// The name of a file, or `artifact` where it has none.
fn name_of(source: &str) -> (res: &str)
    ensures
        res@ == plain_name(source@),
{
    match paths::file_name(source) {
        Some(name) => name,
        None => "artifact",
    }
}

/// A name with a suffix put before its extension.
fn with_suffix(name: &str, suffix: &str) -> (res: String)
    ensures
        res@ == suffixed(name@, suffix@),
{
    if suffix.is_empty() {
        return name.to_owned();
    }
    if let Some((stem, ext)) = text::rsplit_once(name, '.') {
        if !stem.is_empty() {
            let mut out = stem.to_owned();
            out.append("-");
            out.append(suffix);
            out.append(".");
            out.append(ext);
            return out;
        }
    }
    let mut out = name.to_owned();
    out.append("-");
    out.append(suffix);
    out
}

/// The path under which a file is kept.
fn path_of(source: &str, workspace: &str, suffix: Option<&str>, number: u64) -> (res: String)
    ensures
        res@ == kept_path(source@, workspace@, text::opt_slice(suffix), number),
{
    match suffix {
        Some(s) => {
            proof {
                reveal_strlit("{build_number}");
            }
            let filled = text::replace(s, "{build_number}", numbers::decimal_text(number).as_str());
            with_suffix(name_of(source), filled.as_str())
        },
        None => match paths::strip_base(source, workspace) {
            Some(rel) => rel.to_owned(),
            None => name_of(source).to_owned(),
        },
    }
}

/// What is to be copied of the files that matched a pattern, in their order. `dest_root` is the
/// directory of the build's artifacts.
pub fn collect(
    number: u64,
    workspace: &str,
    dest_root: &str,
    pattern: &ArtifactConfig,
    matches: &Vec<String>,
) -> (res: Vec<Kept>)
    ensures
        res@.len() == matches@.len(),
        forall|i: int|
            0 <= i < res@.len() ==> {
                &&& (#[trigger] res@[i]).source@ == matches@[i]@
                &&& res@[i].name@ == kept_path(
                    matches@[i]@,
                    workspace@,
                    text::opt_text(pattern.suffix),
                    number,
                )
                &&& res@[i].dest@ == paths::joined(dest_root@, res@[i].name@)
            },
{
    let suffix = text::as_slice(&pattern.suffix);
    let mut out: Vec<Kept> = Vec::new();
    let mut i: usize = 0;
    while i < matches.len()
        invariant
            i <= matches@.len(),
            out@.len() == i,
            text::opt_slice(suffix) == text::opt_text(pattern.suffix),
            forall|k: int|
                0 <= k < i ==> {
                    &&& (#[trigger] out@[k]).source@ == matches@[k]@
                    &&& out@[k].name@ == kept_path(
                        matches@[k]@,
                        workspace@,
                        text::opt_text(pattern.suffix),
                        number,
                    )
                    &&& out@[k].dest@ == paths::joined(dest_root@, out@[k].name@)
                },
        decreases matches@.len() - i,
    {
        let source = matches[i].clone();
        let name = path_of(source.as_str(), workspace, suffix, number);
        let dest = paths::join(dest_root, name.as_str());
        out.push(Kept { source, dest, name });
        i = i + 1;
    }
    out
}

/// The path of an artifact among all artifacts.
pub open spec fn artifact_path(project: Seq<char>, id: u128, name: Seq<char>) -> Seq<char> {
    project + "/"@ + outside::uuid_text(id) + "/"@ + name
}

/// The artifact that a file has become.
pub fn artifact_ref(project: &str, id: u128, name: &str, size: u64) -> (res: ArtifactRef)
    ensures
        res.project@ == project@,
        res.build_id == id,
        res.path@ == artifact_path(project@, id, name@),
        res.size == size,
        res.url@ == "/artifacts/"@ + artifact_path(project@, id, name@),
{
    let mut path = project.to_owned();
    path.append("/");
    path.append(uuid_to_text(id).as_str());
    path.append("/");
    path.append(name);
    let mut url = "/artifacts/".to_owned();
    url.append(path.as_str());
    ArtifactRef { project: project.to_owned(), build_id: id, path, size, url }
}

// ---------------------------------------------------------------------------------------------
// Laws
// ---------------------------------------------------------------------------------------------
/// The name of a file holds no separator.
proof fn lemma_plain_name(source: Seq<char>)
    ensures
        !plain_name(source).contains('/'),
{
    let t = paths::clean_back(source);
    text::lemma_rfind_char_bounds(t, '/');
    reveal_strlit("artifact");
    let name = t.skip(text::rfind_char(t, '/') + 1);
    assert(forall|k: int|
        0 <= k < name.len() ==> name[k] == t[text::rfind_char(t, '/') + 1 + k]);
}

/// With a suffix that holds no separator, a file is kept right in the directory of its build.
pub proof fn law_suffix_flattens(
    source: Seq<char>,
    workspace: Seq<char>,
    suffix: Seq<char>,
    number: u64,
)
    requires
        !numbered(suffix, number).contains('/'),
    ensures
        !kept_path(source, workspace, Some(suffix), number).contains('/'),
{
    let name = plain_name(source);
    let s = numbered(suffix, number);
    lemma_plain_name(source);
    text::lemma_rfind_char_bounds(name, '.');
    reveal_strlit("-");
    reveal_strlit(".");
    let kept = suffixed(name, s);
    if kept.contains('/') {
        let k = choose|k: int| 0 <= k < kept.len() && kept[k] == '/';
        let i = text::rfind_char(name, '.');
        if s.len() == 0 {
            assert(name[k] == '/');
        } else if i > 0 {
            assert(name.take(i).len() == i);
            if k < i {
                assert(name[k] == '/');
            } else if k > i && k <= i + s.len() {
                assert(s[k - i - 1] == '/');
            } else if k > i + s.len() + 1 {
                assert(name[k - s.len() - 1] == '/');
            }
        } else {
            if k < name.len() {
                assert(name[k] == '/');
            } else if k > name.len() {
                assert(s[k - name.len() - 1] == '/');
            }
        }
    }
}

/// An empty suffix keeps the name of the file.
pub proof fn law_empty_suffix_keeps_name(source: Seq<char>, workspace: Seq<char>, number: u64)
    ensures
        kept_path(source, workspace, Some(seq![]), number) == plain_name(source),
{
    reveal_strlit("{build_number}");
    let p = "{build_number}"@;
    assert(!p.is_prefix_of(Seq::<char>::empty()));
    assert(text::find_text(Seq::<char>::empty(), p) is None);
}

/// Without a suffix, a file of the workspace is kept under its path in the workspace.
pub proof fn law_path_kept(workspace: Seq<Seq<char>>, file: Seq<Seq<char>>, number: u64)
    requires
        paths::all_proper(workspace),
        paths::all_proper(file),
        workspace.len() > 0,
        file.len() > 0,
    ensures
        kept_path(
            paths::path_of(workspace + file),
            paths::path_of(workspace),
            None,
            number,
        ) == paths::path_of(file).skip(1),
{
    paths::law_relative_path(workspace, file);
}

/// The address of an artifact is its path under `/artifacts/`, so that the two always lead to the
/// same file.
pub proof fn law_artifact_url_is_path(project: Seq<char>, id: u128, name: Seq<char>)
    ensures
        text::without_prefix(
            "/artifacts/"@ + artifact_path(project, id, name),
            "/artifacts/"@,
        ) == Some(artifact_path(project, id, name)),
{
    let p = "/artifacts/"@;
    let s = p + artifact_path(project, id, name);
    assert(s.subrange(0, p.len() as int) =~= p);
    assert(s.skip(p.len() as int) =~= artifact_path(project, id, name));
}

/// A suffix is put before the extension of a name, or at its end where it has none.
pub proof fn law_where_suffixes_go(
    stem: Seq<char>,
    ext: Seq<char>,
    name: Seq<char>,
    suffix: Seq<char>,
)
    requires
        suffix.len() > 0,
        stem.len() > 0,
        !ext.contains('.'),
        !name.contains('.'),
    ensures
        suffixed(stem + seq!['.'] + ext, suffix) == stem + seq!['-'] + suffix + seq!['.'] + ext,
        suffixed(name, suffix) == name + seq!['-'] + suffix,
        suffixed(seq!['.'] + name, suffix) == seq!['.'] + name + seq!['-'] + suffix,
{
    reveal_strlit("-");
    reveal_strlit(".");
    assert("-"@ =~= seq!['-']);
    assert("."@ =~= seq!['.']);
    text::law_split_at_last(stem, '.', ext);
    text::law_split_at_last(seq![], '.', name);
    assert(seq![] + seq!['.'] + name =~= seq!['.'] + name);
}

/// `{build_number}` in a suffix is replaced by the number of the build; a suffix without it is left
/// as it is.
pub proof fn law_build_number_in_suffix(a: Seq<char>, b: Seq<char>, number: u64)
    requires
        !a.contains('{'),
        !b.contains('{'),
    ensures
        numbered(a + "{build_number}"@ + b, number) == a + numbers::decimal(number as nat) + b,
        numbered(a, number) == a,
{
    reveal_strlit("{build_number}");
    let p = "{build_number}"@;
    let n = numbers::decimal(number as nat);
    text::law_replaced(a, p, b, n);
    text::law_replaced(b, p, seq![], n);
}

/// A file that does not lie in the workspace is kept under its name alone.
pub proof fn law_files_from_elsewhere(
    source: Seq<char>,
    workspace: Seq<char>,
    dir: Seq<char>,
    name: Seq<char>,
    number: u64,
)
    requires
        source == dir + seq!['/'] + name,
        paths::proper(name),
        name != ".."@,
        paths::relative_to(source, workspace) is None,
    ensures
        kept_path(source, workspace, None, number) == name,
{
    paths::law_last_component(dir, name);
}

/// With a suffix, a file is kept under its name with the suffix in it, wherever it lies.
pub proof fn law_suffixed_name(
    dir: Seq<char>,
    stem: Seq<char>,
    ext: Seq<char>,
    suffix: Seq<char>,
    workspace: Seq<char>,
    number: u64,
)
    requires
        stem.len() > 0,
        !stem.contains('/'),
        ext.len() > 0,
        !ext.contains('/'),
        !ext.contains('.'),
        suffix.len() > 0,
        !suffix.contains('{'),
    ensures
        kept_path(
            dir + seq!['/'] + (stem + seq!['.'] + ext),
            workspace,
            Some(suffix),
            number,
        ) == stem + seq!['-'] + suffix + seq!['.'] + ext,
{
    reveal_strlit("..");
    let name = stem + seq!['.'] + ext;
    assert(!name.contains('/')) by {
        if name.contains('/') {
            let k = choose|k: int| 0 <= k < name.len() && name[k] == '/';
            if k < stem.len() {
                assert(stem[k] == '/');
            } else {
                assert(ext[k - stem.len() - 1] == '/');
            }
        }
    }
    assert(name.len() > 2);
    paths::law_last_component(dir, name);
    law_build_number_in_suffix(suffix, seq![], number);
    law_where_suffixes_go(stem, ext, seq![], suffix);
}

/// The path of an artifact names its project, its build and its file, in this order.
pub proof fn law_artifact_path(project: Seq<char>, id: u128, name: Seq<char>)
    ensures
        artifact_path(project, id, name) == project + seq!['/'] + outside::uuid_text(id) + seq!['/']
            + name,
{
    reveal_strlit("/");
    assert("/"@ =~= seq!['/']);
}

} // verus!
