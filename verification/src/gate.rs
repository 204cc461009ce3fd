//! Running a seki's toolchain. Monban runs the toolchain itself: a compiler is an
//! independent examiner that cannot be talked round, and results brought along do not
//! count. Starting the process is the caller's work; what the run means is decided here.

use crate::otel::{lemma_start_index_unique, start_index};
use crate::text::{chars_of, int_text, lemma_utf8_len_take, owned, string_from_chars, utf8_len, utf8_width_exec};
use crate::MonbanError;
use vstd::prelude::*;

verus! {

/// The most output a transcript keeps, in bytes (the evidence goes into the ledger's
/// store, which does not hold unbounded output).
pub const MAX_OUTPUT: usize = 100000;

/// The record of one toolchain run; the transcript becomes the evidence file.
#[derive(Debug)]
pub struct ToolchainRun {
    pub cmd: Vec<String>,
    pub exit: Option<i32>,
    pub ok: bool,
    pub transcript: String,
}

/// Words joined by `sep` (std's `join`).
pub open spec fn join_words(words: Seq<Seq<char>>, sep: Seq<char>) -> Seq<char>
    decreases words.len(),
{
    if words.len() == 0 {
        seq![]
    } else if words.len() == 1 {
        words[0]
    } else {
        join_words(words.drop_last(), sep) + sep + words.last()
    }
}

/// The output as kept: whole when it fits, else cut at the last character that starts
/// within the limit, with a note that it was cut.
pub open spec fn kept_output(body: Seq<char>) -> Seq<char> {
    if utf8_len(body) <= MAX_OUTPUT {
        body
    } else {
        body.take(start_index(body, MAX_OUTPUT as nat)) + "\n…(出力が長いため打ち切り)\n"@
    }
}

/// The exit code as shown: the code, or `signal` when the process had none.
pub open spec fn exit_text(exit: Option<i32>) -> Seq<char> {
    match exit {
        Some(c) => int_text(c as int),
        None => "signal"@,
    }
}

/// The transcript of a run.
pub open spec fn toolchain_transcript(
    cmd: Seq<Seq<char>>,
    expect_exit: i32,
    cwd: Seq<char>,
    exit: Option<i32>,
    body: Seq<char>,
) -> Seq<char> {
    "$ "@ + join_words(cmd, " "@) + "\n(exit: "@ + exit_text(exit) + ", expect: "@ + int_text(
        expect_exit as int,
    ) + ", cwd: "@ + cwd + ")\n---\n"@ + kept_output(body)
}

/// Words joined by `sep`.
pub fn join_words_exec(words: &[String], sep: &str) -> (res: String)
    ensures
        res@ == join_words(crate::contract::strings(words@), sep@),
{
    let ghost w = crate::contract::strings(words@);
    let mut r = String::new();
    let n = words.len();
    assert(w.take(0) =~= seq![]);
    for i in 0..n
        invariant
            n == words@.len(),
            w == crate::contract::strings(words@),
            r@ == join_words(w.take(i as int), sep@),
    {
        if i > 0 {
            r.append(sep);
        }
        r.append(words[i].as_str());
        proof {
            assert(w.take(i + 1).drop_last() =~= w.take(i as int));
            if i == 0 {
                assert(r@ =~= w.take(1)[0]);
            }
        }
    }
    assert(w.take(n as int) =~= w);
    r
}

/// The output as kept in the transcript.
fn kept_output_exec(body: &str) -> (res: String)
    ensures
        res@ == kept_output(body@),
{
    let cs = chars_of(body);
    let n = cs.len();
    let limit: u128 = MAX_OUTPUT as u128;
    // bytes of cs[..k], stopping as soon as the next character would start past the limit
    let mut k: usize = 0;
    let mut b: u128 = 0;
    assert(cs@.take(0) =~= seq![]);
    while k < n && b + utf8_width_exec(cs[k]) as u128 <= limit
        invariant
            n == cs@.len(),
            k <= n,
            b == utf8_len(cs@.take(k as int)),
            b <= limit,
            limit == MAX_OUTPUT,
        decreases n - k,
    {
        proof {
            lemma_utf8_len_take(cs@, k as int);
        }
        b = b + utf8_width_exec(cs[k]) as u128;
        k += 1;
    }
    if k == n {
        assert(cs@.take(n as int) =~= cs@);
        return owned(body);
    }
    proof {
        lemma_utf8_len_take(cs@, k as int);
        crate::text::lemma_utf8_len_mono(cs@, k + 1, n as int);
        assert(cs@.take(n as int) =~= cs@);
        lemma_start_index_unique(cs@, MAX_OUTPUT as nat, k as int);
    }
    let kept = crate::text::slice_chars(cs.as_slice(), 0, k);
    let mut r = string_from_chars(kept.as_slice());
    r.append("\n…(出力が長いため打ち切り)\n");
    r
}

/// Completes a toolchain run from what starting the process yielded: its exit code (if it
/// exited with one) and its standard output and error, or why it could not be started.
/// The run passes exactly when the exit code is the expected one.
pub fn run_toolchain(
    cmd: &[String],
    expect_exit: i32,
    cwd: &str,
    outcome: Result<(Option<i32>, String, String), String>,
) -> (res: Result<ToolchainRun, MonbanError>)
    ensures
        match outcome {
            Err(e) => res matches Err(MonbanError::Io(m)) && m@ == e@,
            Ok((exit, out, err)) => res matches Ok(run) && crate::contract::strings(run.cmd@)
                == crate::contract::strings(cmd@) && run.exit == exit && run.ok == (exit == Some(
                expect_exit)) && run.transcript@ == toolchain_transcript(
                crate::contract::strings(cmd@),
                expect_exit,
                cwd@,
                exit,
                out@ + err@,
            ),
        },
{
    let (exit, out, err) = match outcome {
        Err(e) => {
            return Err(MonbanError::Io(e));
        },
        Ok(o) => o,
    };
    let ok = match exit {
        Some(c) => c == expect_exit,
        None => false,
    };
    let mut body = out;
    body.append(err.as_str());
    let mut t = String::from_str("$ ");
    t.append(join_words_exec(cmd, " ").as_str());
    t.append("\n(exit: ");
    match exit {
        Some(c) => t.append(crate::text::int_text_exec(c as i64).as_str()),
        None => t.append("signal"),
    }
    t.append(", expect: ");
    t.append(crate::text::int_text_exec(expect_exit as i64).as_str());
    t.append(", cwd: ");
    t.append(cwd);
    t.append(")\n---\n");
    t.append(kept_output_exec(body.as_str()).as_str());
    let mut owned_cmd: Vec<String> = Vec::new();
    let n = cmd.len();
    for i in 0..n
        invariant
            n == cmd@.len(),
            crate::contract::strings(owned_cmd@) == crate::contract::strings(cmd@.take(i as int)),
    {
        let ghost before = owned_cmd@;
        let x = cmd[i].clone();
        owned_cmd.push(x);
        proof {
            assert(cmd@.take(i + 1) =~= cmd@.take(i as int).push(cmd@[i as int]));
            assert(crate::contract::strings(cmd@.take(i + 1)) =~= crate::contract::strings(cmd@.take(i as int)).push(cmd@[i as int]@));
            assert(crate::contract::strings(owned_cmd@) =~= crate::contract::strings(before).push(x@));
        }
    }
    assert(cmd@.take(n as int) =~= cmd@);
    Ok(ToolchainRun { cmd: owned_cmd, exit, ok, transcript: t })
}

} // verus!
