//! What the commands on an LTFS volume decide and print.
use vstd::prelude::*;

use crate::changer::commands;
use crate::daemon::request;
use crate::error::{TapeError, TapeErrorView};
use crate::text;

verus! {

/// A tape is only made a volume where its destruction was confirmed.
pub fn check_mkltfs(yes_destroy: bool) -> (r: Result<(), TapeError>)
    ensures
        if yes_destroy {
            r is Ok
        } else {
            commands::failed(
                r,
                TapeErrorView::Refused {
                    reason: "mkltfs 会抹掉磁带，请加 --yes-destroy 确认"@,
                },
            )
        },
{
    if yes_destroy {
        Ok(())
    } else {
        Err(
            TapeError::Refused {
                reason: "mkltfs 会抹掉磁带，请加 --yes-destroy 确认".to_owned(),
            },
        )
    }
}

/// A key and its value, `None` where the text has no equals sign or nothing stands before it.
pub open spec fn attribute(s: Seq<char>) -> Option<(Seq<char>, Seq<char>)> {
    match request::cut(s, '=') {
        Some((k, v)) => if k.len() > 0 {
            Some((k, v))
        } else {
            None
        },
        None => None,
    }
}

/// The first of the texts that is no attribute.
pub open spec fn first_bad(v: Seq<Seq<char>>) -> Option<Seq<char>>
    decreases v.len(),
{
    if v.len() == 0 {
        None
    } else {
        match first_bad(v.drop_last()) {
            Some(s) => Some(s),
            None => if attribute(v.last()) is None {
                Some(v.last())
            } else {
                None
            },
        }
    }
}

/// Reads attributes, each written as a key, an equals sign and a value.
pub fn parse_xattrs(list: &Vec<String>) -> (r: Result<Vec<(String, String)>, TapeError>)
    ensures
        match first_bad(text::string_views(list@)) {
            Some(s) => commands::failed(
                r,
                TapeErrorView::Ltfs("--xattr 需要 KEY=VALUE 形式: "@ + s),
            ),
            None => r is Ok && r->Ok_0@.len() == list@.len() && forall|i: int|
                #![trigger r->Ok_0@[i]]
                0 <= i < list@.len() ==> attribute(list@[i]@) == Some(
                    (r->Ok_0@[i].0@, r->Ok_0@[i].1@),
                ),
        },
{
    let n = list.len();
    let ghost all = text::string_views(list@);
    let mut out: Vec<(String, String)> = Vec::new();
    let mut i: usize = 0;
    while i < n
        invariant
            i <= n == list@.len(),
            all == text::string_views(list@),
            out@.len() == i,
            first_bad(all.take(i as int)) is None,
            forall|j: int|
                #![trigger out@[j]]
                0 <= j < i ==> attribute(list@[j]@) == Some((out@[j].0@, out@[j].1@)),
        decreases n - i,
    {
        let s = &list[i];
        proof {
            assert(all.take(i + 1).drop_last() =~= all.take(i as int));
            assert(all.take(i + 1).last() == s@);
        }
        match request::split_once(s.as_str(), '=') {
            Some((k, v)) if !k.as_str().is_empty() => {
                out.push((k, v));
            },
            _ => {
                proof {
                    lemma_bad_stays(all, i + 1);
                }
                return Err(
                    TapeError::Ltfs(text::cat2("--xattr 需要 KEY=VALUE 形式: ", s.as_str())),
                );
            },
        }
        i += 1;
    }
    assert(all.take(n as int) =~= all);
    Ok(out)
}

proof fn lemma_bad_stays(v: Seq<Seq<char>>, k: int)
    requires
        0 <= k <= v.len(),
        first_bad(v.take(k)) is Some,
    ensures
        first_bad(v) == first_bad(v.take(k)),
    decreases v.len(),
{
    if k < v.len() {
        assert(v.drop_last().take(k) =~= v.take(k));
        lemma_bad_stays(v.drop_last(), k);
    } else {
        assert(v.take(k) =~= v);
    }
}

/// What a check of the files' hashes comes to.
pub fn verify_result(bad: usize) -> (r: Result<(), TapeError>)
    ensures
        if bad > 0 {
            commands::failed(
                r,
                TapeErrorView::Ltfs(text::decimal(bad as nat) + " 个文件哈希不一致"@),
            )
        } else {
            r is Ok
        },
{
    if bad > 0 {
        Err(
            TapeError::Ltfs(
                text::cat2(text::decimal_text(bad as u64).as_str(), " 个文件哈希不一致"),
            ),
        )
    } else {
        Ok(())
    }
}

/// The line of a file: where it is a symbolic link, with its target, else with its size.
pub fn file_line(path: &str, size: u64, target: Option<&str>) -> (r: String)
    ensures
        r@ == match target {
            Some(t) => "  "@ + text::at_right("symlink"@, 12) + "  "@ + path@ + " -> "@ + t@,
            None => "  "@ + text::at_right(text::decimal(size as nat), 12) + "  "@ + path@,
        },
{
    match target {
        Some(t) => {
            let mut line = text::cat4("  ", text::right("symlink", 12).as_str(), "  ", path);
            line.push_str(" -> ");
            line.push_str(t);
            line
        },
        None => text::cat4(
            "  ",
            text::right(text::decimal_text(size).as_str(), 12).as_str(),
            "  ",
            path,
        ),
    }
}

} // verus!
