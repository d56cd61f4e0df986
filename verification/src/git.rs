//! What a `git` invocation printed, turned into the value the workspace
//! needs or into the error it reports.
use crate::text::{append, chars_of, join, join_chars, push_str, seqs, string_of, trim, trim_chars};
use vstd::prelude::*;

verus! {

/// The arguments of a `git` invocation, joined by spaces.
pub open spec fn joined_args(args: Seq<&str>) -> Seq<char> {
    join(Seq::new(args.len(), |i: int| args[i]@), " "@)
}

pub fn join_args(args: &[&str]) -> (r: Vec<char>)
    ensures
        r@ == joined_args(args@),
{
    let mut pieces: Vec<Vec<char>> = Vec::new();
    let mut i: usize = 0;
    while i < args.len()
        invariant
            i <= args.len(),
            pieces@.len() == i,
            forall|k: int| 0 <= k < i ==> #[trigger] pieces@[k]@ == args@[k]@,
        decreases args.len() - i,
    {
        pieces.push(chars_of(args[i]));
        i = i + 1;
    }
    assert(seqs(pieces@) =~= Seq::new(args@.len(), |i: int| args@[i]@));
    let sep = chars_of(" ");
    join_chars(&pieces, sep.as_slice())
}

/// The trimmed standard output of a successful `git` call. A failed call
/// reports its trimmed standard error when there is any; output that is not
/// UTF-8 (`stdout` is `None`) or that is blank is an error too.
pub open spec fn git_result(
    args: Seq<&str>,
    success: bool,
    stdout: Option<Seq<char>>,
    stderr: Seq<char>,
) -> Result<Seq<char>, Seq<char>> {
    let cmd = "git "@ + joined_args(args);
    if !success {
        if trim(stderr).len() == 0 {
            Err(cmd + " failed"@)
        } else {
            Err(cmd + " failed: "@ + trim(stderr))
        }
    } else {
        match stdout {
            None => Err(cmd + " returned non-utf8 output"@),
            Some(out) => if trim(out).len() == 0 {
                Err(cmd + " returned empty output"@)
            } else {
                Ok(trim(out))
            },
        }
    }
}

pub fn git_output_value(args: &[&str], success: bool, stdout: Option<&str>, stderr: &str) -> (r:
    Result<String, String>)
    ensures
        match r {
            Ok(v) => git_result(
                args@,
                success,
                match stdout {
                    Some(s) => Some(s@),
                    None => None,
                },
                stderr@,
            ) == Ok::<Seq<char>, Seq<char>>(v@),
            Err(e) => git_result(
                args@,
                success,
                match stdout {
                    Some(s) => Some(s@),
                    None => None,
                },
                stderr@,
            ) == Err::<Seq<char>, Seq<char>>(e@),
        },
{
    let mut cmd: Vec<char> = Vec::new();
    push_str(&mut cmd, "git ");
    let joined = join_args(args);
    append(&mut cmd, joined.as_slice());
    if !success {
        let e = chars_of(stderr);
        let t = trim_chars(e.as_slice());
        if t.len() == 0 {
            push_str(&mut cmd, " failed");
        } else {
            push_str(&mut cmd, " failed: ");
            append(&mut cmd, t.as_slice());
        }
        return Err(string_of(cmd.as_slice()));
    }
    match stdout {
        None => {
            push_str(&mut cmd, " returned non-utf8 output");
            Err(string_of(cmd.as_slice()))
        },
        Some(out) => {
            let o = chars_of(out);
            let t = trim_chars(o.as_slice());
            if t.len() == 0 {
                push_str(&mut cmd, " returned empty output");
                Err(string_of(cmd.as_slice()))
            } else {
                Ok(string_of(t.as_slice()))
            }
        },
    }
}

} // verus!
