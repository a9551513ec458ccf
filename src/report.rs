use vstd::prelude::*;
use vstd::string::{StrSliceExecFns, StringExecFns};
use vstd::string::StringSliceAdditionalSpecFns;
use vstd::utf8::{decode_utf8, encode_utf8_decode_utf8, valid_utf8};

use crate::listing::{decode_text, SyncError};

verus! {

/// What stands before each line of a command's report.
pub const OUTPUT_MARK: &'static str = " > [output]      |  ";

/// `line` as it stands in a command's report.
pub open spec fn marked(line: Seq<char>) -> Seq<char> {
    OUTPUT_MARK@ + line
}

/// The report of one git command: its exit status, then each line of its
/// standard output, then each line of its standard error, each one marked.
pub open spec fn report_of(status: Seq<char>, out: Seq<char>, err: Seq<char>) -> Seq<Seq<char>> {
    seq![marked(status)] + lines_of(out).map_values(|l: Seq<char>| marked(l)) + lines_of(
        err,
    ).map_values(|l: Seq<char>| marked(l))
}

/// The pieces of `s` between newlines, in order; the last piece is what
/// follows the last newline (empty when `s` ends with one).
pub open spec fn pieces(s: Seq<char>) -> Seq<Seq<char>>
    decreases s.len(),
{
    if s.len() == 0 {
        seq![seq![]]
    } else {
        let p = pieces(s.drop_last());
        if s.last() == '\n' {
            p.push(seq![])
        } else {
            p.update(p.len() - 1, p.last().push(s.last()))
        }
    }
}

/// A line without the carriage return that may end it.
pub open spec fn strip_cr(line: Seq<char>) -> Seq<char> {
    if line.len() > 0 && line.last() == '\r' {
        line.drop_last()
    } else {
        line
    }
}

/// The lines of `s`: split at each `\n`, a `\r` just before a `\n` left out,
/// and no empty line after a final newline.
pub open spec fn lines_of(s: Seq<char>) -> Seq<Seq<char>> {
    let p = pieces(s);
    let ended = p.drop_last().map_values(|l: Seq<char>| strip_cr(l));
    if p.last().len() == 0 {
        ended
    } else {
        ended.push(p.last())
    }
}

proof fn lemma_pieces_nonempty(s: Seq<char>)
    ensures
        pieces(s).len() >= 1,
    decreases s.len(),
{
    if s.len() > 0 {
        lemma_pieces_nonempty(s.drop_last());
    }
}

/// Splits `text` into its lines.
pub fn text_lines(text: &str) -> (r: Vec<String>)
    ensures
        r@.map_values(|l: String| l@) == lines_of(text@),
{
    let n: usize = text.unicode_len();
    let mut out: Vec<String> = Vec::new();
    let mut start: usize = 0;
    let mut i: usize = 0;
    proof {
        assert(text@.take(0) =~= seq![]);
    }
    while i < n
        invariant
            n == text@.len(),
            start <= i <= n,
            pieces(text@.take(i as int)).len() >= 1,
            out@.map_values(|l: String| l@) == pieces(text@.take(i as int)).drop_last().map_values(
                |l: Seq<char>| strip_cr(l),
            ),
            pieces(text@.take(i as int)).last() == text@.subrange(start as int, i as int),
        decreases n - i,
    {
        let c = text.get_char(i);
        proof {
            assert(text@.take(i + 1).drop_last() =~= text@.take(i as int));
            lemma_pieces_nonempty(text@.take(i + 1));
        }
        if c == '\n' {
            let mut end: usize = i;
            if i > start && text.get_char(i - 1) == '\r' {
                end = i - 1;
            }
            let line = String::from_str(text.substring_char(start, end));
            proof {
                let old_p = pieces(text@.take(i as int));
                assert(strip_cr(old_p.last()) =~= text@.subrange(start as int, end as int));
            }
            let ghost old_out = out@;
            out.push(line);
            start = i + 1;
            proof {
                let old_p = pieces(text@.take(i as int));
                assert(out@.map_values(|l: String| l@) =~= old_out.map_values(|l: String| l@).push(
                    strip_cr(old_p.last()),
                ));
                let new_p = pieces(text@.take(i + 1));
                assert(new_p.drop_last() =~= old_p);
                assert(out@.map_values(|l: String| l@) =~= new_p.drop_last().map_values(
                    |l: Seq<char>| strip_cr(l),
                ));
                assert(new_p.last() =~= text@.subrange(start as int, i + 1));
            }
        } else {
            proof {
                let old_p = pieces(text@.take(i as int));
                let new_p = pieces(text@.take(i + 1));
                assert(new_p.drop_last() =~= old_p.drop_last());
                assert(new_p.last() =~= text@.subrange(start as int, i + 1));
            }
        }
        i = i + 1;
    }
    proof {
        assert(text@.take(n as int) =~= text@);
    }
    if start < n {
        let line = String::from_str(text.substring_char(start, n));
        let ghost old_out = out@;
        out.push(line);
        proof {
            let p = pieces(text@);
            assert(out@.map_values(|l: String| l@) =~= old_out.map_values(|l: String| l@).push(
                p.last(),
            ));
            assert(out@.map_values(|l: String| l@) =~= p.drop_last().map_values(
                |l: Seq<char>| strip_cr(l),
            ).push(p.last()));
        }
    }
    out
}

/// Marks `line` for the report.
pub fn mark_line(line: &str) -> (r: String)
    ensures
        r@ == marked(line@),
{
    String::from_str(OUTPUT_MARK).concat(line)
}

/// Appends each of `lines`, marked, to `report`.
fn append_marked(report: &mut Vec<String>, lines: &Vec<String>)
    ensures
        final(report)@.map_values(|l: String| l@) == old(report)@.map_values(|l: String| l@)
            + lines@.map_values(|l: String| l@).map_values(|l: Seq<char>| marked(l)),
{
    let ghost start = report@.map_values(|l: String| l@);
    let mut k: usize = 0;
    while k < lines.len()
        invariant
            k <= lines@.len(),
            report@.map_values(|l: String| l@) == start + lines@.map_values(
                |l: String| l@,
            ).take(k as int).map_values(|l: Seq<char>| marked(l)),
        decreases lines@.len() - k,
    {
        let ghost before = report@;
        report.push(mark_line(lines[k].as_str()));
        proof {
            let done = lines@.map_values(|l: String| l@);
            assert(done.take(k + 1) =~= done.take(k as int).push(done[k as int]));
            assert(report@.map_values(|l: String| l@) =~= before.map_values(|l: String| l@).push(
                marked(done[k as int]),
            ));
            assert(start + done.take(k + 1).map_values(|l: Seq<char>| marked(l)) =~= (start
                + done.take(k as int).map_values(|l: Seq<char>| marked(l))).push(
                marked(done[k as int]),
            ));
        }
        k = k + 1;
    }
    proof {
        let done = lines@.map_values(|l: String| l@);
        assert(done.take(k as int) =~= done);
    }
}

/// The report of a git command that ended with `status` and wrote `stdout`
/// and `stderr`. Fails when either output is not well-formed UTF-8.
pub fn output_report(status: &str, stdout: &[u8], stderr: &[u8]) -> (r: Result<
    Vec<String>,
    SyncError,
>)
    ensures
        r is Err <==> !(valid_utf8(stdout@) && valid_utf8(stderr@)),
        r matches Err(e) ==> e == SyncError::InvalidText,
        r matches Ok(v) ==> v@.map_values(|l: String| l@) == report_of(
            status@,
            decode_utf8(stdout@),
            decode_utf8(stderr@),
        ),
{
    let out_text = match decode_text(stdout) {
        None => return Err(SyncError::InvalidText),
        Some(t) => t,
    };
    let err_text = match decode_text(stderr) {
        None => return Err(SyncError::InvalidText),
        Some(t) => t,
    };
    proof {
        encode_utf8_decode_utf8(out_text@);
        encode_utf8_decode_utf8(err_text@);
    }
    let mut report: Vec<String> = Vec::new();
    report.push(mark_line(status));
    append_marked(&mut report, &text_lines(out_text));
    append_marked(&mut report, &text_lines(err_text));
    proof {
        assert(report@.map_values(|l: String| l@) =~= report_of(
            status@,
            decode_utf8(stdout@),
            decode_utf8(stderr@),
        ));
    }
    Ok(report)
}

} // verus!
