//! Setting up `.leaf/`: the directories and the profile it needs, and the
//! lines the git exclude file still lacks.
use crate::cli::pick;
use crate::doctor::srp_sidecar::EXCLUDE_LINE;
use crate::fs_ext::DirectoryStatus;
use crate::inventory::{stage_dir_name, Stage};
use crate::text::{append, chars_of, eq_chars, lines, lines_of, push_str, seqs, string_of};
use vstd::prelude::*;

verus! {

/// The exclude line that keeps `.leaf/` out of git.
pub const LEAF_EXCLUDE_LINE: &'static str = "/.leaf";

/// The repository profile written when `.leaf/PROFILE.md` is missing.
pub const PROFILE_TEMPLATE: &'static str = "# Profile\n\nLEAF 작업 전체에 적용해야 하는 사용자 언어, 반복 요구, 에이전트 실수,\n오답노트, 재발 방지 교훈, 반복 사실을 짧고 명확하게 모은다. 한 작업에만\n필요한 내용은 gate file, retrospect, pressed에 둔다. PROFILE은 leaf-soul을\n부정하지 않고 구체화한다.\n\n## User Language\n\n- 미정\n\n## Settled\n\n## Provisional\n";

/// The directories `.leaf/` needs, in the order they are ensured: the root,
/// then one per stage.
pub open spec fn leaf_dirs(repo_root: Seq<char>) -> Seq<Seq<char>> {
    let root = repo_root + "/.leaf"@;
    seq![
        root,
        root + seq!['/'] + stage_dir_name(Stage::Sprout),
        root + seq!['/'] + stage_dir_name(Stage::Leaf),
        root + seq!['/'] + stage_dir_name(Stage::Fallen),
    ]
}

fn child(parent: &str, name: &str) -> (r: String)
    ensures
        r@ == parent@ + seq!['/'] + name@,
{
    let mut v = chars_of(parent);
    v.push('/');
    push_str(&mut v, name);
    string_of(v.as_slice())
}

pub fn leaf_directories(repo_root: &str) -> (r: Vec<String>)
    ensures
        r.deep_view() == leaf_dirs(repo_root@),
{
    let mut root_chars = chars_of(repo_root);
    push_str(&mut root_chars, "/.leaf");
    let root = string_of(root_chars.as_slice());
    let mut out: Vec<String> = Vec::new();
    out.push(root.clone());
    out.push(child(root.as_str(), Stage::Sprout.dir_name()));
    out.push(child(root.as_str(), Stage::Leaf.dir_name()));
    out.push(child(root.as_str(), Stage::Fallen.dir_name()));
    assert(out.deep_view() =~= leaf_dirs(repo_root@));
    out
}

/// `<repo>/.leaf/PROFILE.md`.
pub fn profile_path(repo_root: &str) -> (r: String)
    ensures
        r@ == repo_root@ + "/.leaf/PROFILE.md"@,
{
    let mut v = chars_of(repo_root);
    push_str(&mut v, "/.leaf/PROFILE.md");
    string_of(v.as_slice())
}

/// Whether a directory `.leaf/` needs must be created: not when it is
/// there, yes when it is missing, and an error when something else is in
/// its place.
pub fn directory_needs_creating(status: DirectoryStatus, path: &str) -> (r: Result<bool, String>)
    ensures
        match status {
            DirectoryStatus::Directory => r == Ok::<bool, String>(false),
            DirectoryStatus::Missing => r == Ok::<bool, String>(true),
            DirectoryStatus::NotDirectory => r matches Err(e) && e@
                == "path exists but is not a directory: "@ + path@,
        },
{
    match status {
        DirectoryStatus::Directory => Ok(false),
        DirectoryStatus::Missing => Ok(true),
        DirectoryStatus::NotDirectory => {
            let mut v: Vec<char> = Vec::new();
            push_str(&mut v, "path exists but is not a directory: ");
            push_str(&mut v, path);
            Err(string_of(v.as_slice()))
        },
    }
}

/// What is at the profile path.
#[derive(Debug, Clone, Copy, PartialEq, Eq, Structural)]
pub enum ProfilePathState {
    Missing,
    Directory,
    /// Anything that exists and is not a directory.
    Present,
}

/// Whether the profile must be written: only when it is missing; a
/// directory in its place is an error.
pub fn profile_needs_creating(state: ProfilePathState, path: &str) -> (r: Result<bool, String>)
    ensures
        match state {
            ProfilePathState::Present => r == Ok::<bool, String>(false),
            ProfilePathState::Missing => r == Ok::<bool, String>(true),
            ProfilePathState::Directory => r matches Err(e) && e@
                == "path exists but is a directory: "@ + path@,
        },
{
    match state {
        ProfilePathState::Present => Ok(false),
        ProfilePathState::Missing => Ok(true),
        ProfilePathState::Directory => {
            let mut v: Vec<char> = Vec::new();
            push_str(&mut v, "path exists but is a directory: ");
            push_str(&mut v, path);
            Err(string_of(v.as_slice()))
        },
    }
}

/// Whether `content` has a line equal to `line`.
pub open spec fn has_line(content: Seq<char>, line: Seq<char>) -> bool {
    exists|i: int| 0 <= i < lines(content).len() && lines(content)[i] == line
}

/// The exclude lines `content` lacks, in order.
pub open spec fn missing_exclude_lines(content: Seq<char>) -> Seq<Seq<char>> {
    pick(!has_line(content, LEAF_EXCLUDE_LINE@), LEAF_EXCLUDE_LINE@) + pick(
        !has_line(content, EXCLUDE_LINE@),
        EXCLUDE_LINE@,
    )
}

/// Each line followed by `\n`.
pub open spec fn terminated(ls: Seq<Seq<char>>) -> Seq<char>
    decreases ls.len(),
{
    if ls.len() == 0 {
        Seq::empty()
    } else {
        terminated(ls.drop_last()) + ls.last() + seq!['\n']
    }
}

/// What to append to the exclude file: nothing when it has both lines;
/// otherwise the missing ones, each on a line of its own, after a newline
/// that ends the file's last line when it had none.
pub open spec fn exclude_addition_text(content: Seq<char>) -> Option<Seq<char>> {
    let m = missing_exclude_lines(content);
    if m.len() == 0 {
        None
    } else {
        Some(
            (if content.len() > 0 && content.last() != '\n' {
                seq!['\n']
            } else {
                Seq::empty()
            }) + terminated(m),
        )
    }
}

fn has_line_in(ls: &Vec<Vec<char>>, target: &str) -> (b: bool)
    ensures
        b == exists|i: int| 0 <= i < ls@.len() && seqs(ls@)[i] == target@,
{
    let t = chars_of(target);
    let mut i: usize = 0;
    while i < ls.len()
        invariant
            i <= ls.len(),
            t@ == target@,
            forall|k: int| 0 <= k < i ==> seqs(ls@)[k] != target@,
        decreases ls.len() - i,
    {
        if eq_chars(ls[i].as_slice(), t.as_slice()) {
            assert(seqs(ls@)[i as int] == target@);
            return true;
        }
        i = i + 1;
    }
    false
}

fn push_line(v: &mut Vec<char>, line: &str)
    ensures
        final(v)@ == old(v)@ + line@ + seq!['\n'],
{
    push_str(v, line);
    v.push('\n');
}

/// The text `ensure_exclude_lines` appends to a git exclude file that
/// holds `existing`, or `None` when it already has both lines.
pub fn exclude_addition(existing: &str) -> (r: Option<String>)
    ensures
        match r {
            Some(t) => exclude_addition_text(existing@) == Some(t@),
            None => exclude_addition_text(existing@) is None,
        },
{
    let c = chars_of(existing);
    let ls = lines_of(c.as_slice());
    let has_leaf = has_line_in(&ls, LEAF_EXCLUDE_LINE);
    let has_local = has_line_in(&ls, EXCLUDE_LINE);
    assert(has_leaf == has_line(existing@, LEAF_EXCLUDE_LINE@));
    assert(has_local == has_line(existing@, EXCLUDE_LINE@));
    if has_leaf && has_local {
        assert(missing_exclude_lines(existing@) =~= Seq::<Seq<char>>::empty());
        return None;
    }
    let mut out: Vec<char> = Vec::new();
    if c.len() > 0 && c[c.len() - 1] != '\n' {
        out.push('\n');
    }
    let ghost head = out@;
    let ghost m = missing_exclude_lines(existing@);
    if !has_leaf {
        push_line(&mut out, LEAF_EXCLUDE_LINE);
    }
    if !has_local {
        push_line(&mut out, EXCLUDE_LINE);
    }
    proof {
        if !has_leaf && !has_local {
            assert(m =~= seq![LEAF_EXCLUDE_LINE@, EXCLUDE_LINE@]);
            assert(m.drop_last() =~= seq![LEAF_EXCLUDE_LINE@]);
            assert(m.drop_last().drop_last() =~= Seq::<Seq<char>>::empty());
            assert(terminated(m.drop_last().drop_last()) =~= Seq::<char>::empty());
            assert(terminated(m.drop_last()) =~= LEAF_EXCLUDE_LINE@ + seq!['\n']);
            assert(terminated(m) =~= LEAF_EXCLUDE_LINE@ + seq!['\n'] + EXCLUDE_LINE@ + seq!['\n']);
        } else if !has_leaf {
            assert(m =~= seq![LEAF_EXCLUDE_LINE@]);
            assert(m.drop_last() =~= Seq::<Seq<char>>::empty());
            assert(terminated(m.drop_last()) =~= Seq::<char>::empty());
            assert(terminated(m) =~= LEAF_EXCLUDE_LINE@ + seq!['\n']);
        } else {
            assert(m =~= seq![EXCLUDE_LINE@]);
            assert(m.drop_last() =~= Seq::<Seq<char>>::empty());
            assert(terminated(m.drop_last()) =~= Seq::<char>::empty());
            assert(terminated(m) =~= EXCLUDE_LINE@ + seq!['\n']);
        }
        assert(out@ =~= head + terminated(m));
    }
    Some(string_of(out.as_slice()))
}

} // verus!
