//! Logic of the bundled applications: the echo server's line reversal and
//! the boot program's command-line splitting.
use vstd::prelude::*;

verus! {

/// The byte `\n`.
pub const NEWLINE: u8 = 0x0a;
/// The byte ` `.
pub const SPACE: u8 = 0x20;
/// The byte `"`.
pub const QUOTE: u8 = 0x22;

/// The position of the last newline before position `i` of `buf`, or -1.
pub open spec fn last_newline_before(buf: Seq<u8>, i: int) -> int
    decreases i,
{
    if i <= 0 {
        -1
    } else if buf[i - 1] == NEWLINE {
        i - 1
    } else {
        last_newline_before(buf, i - 1)
    }
}

/// The position of the first newline at or after position `i` of `buf`, or
/// its length.
pub open spec fn next_newline(buf: Seq<u8>, i: int) -> int
    decreases buf.len() - i,
{
    if i >= buf.len() {
        buf.len() as int
    } else if buf[i] == NEWLINE {
        i
    } else {
        next_newline(buf, i + 1)
    }
}

/// `buf` with each line reversed in place; the newlines stay where they are.
pub open spec fn reverse_lines(buf: Seq<u8>) -> Seq<u8> {
    Seq::new(buf.len(), |i: int| if buf[i] == NEWLINE {
        NEWLINE
    } else {
        buf[(last_newline_before(buf, i) + 1) + next_newline(buf, i) - 1 - i]
    })
}

/// Inside a line the last newline before each position is the one before
/// the line.
proof fn lemma_last_newline_in_line(buf: Seq<u8>, ls: int, k: int)
    requires
        0 <= ls <= k <= buf.len(),
        ls == 0 || buf[ls - 1] == NEWLINE,
        forall|q: int| ls <= q < k ==> buf[q] != NEWLINE,
    ensures
        last_newline_before(buf, k) == ls - 1,
    decreases k,
{
    if k > ls {
        lemma_last_newline_in_line(buf, ls, k - 1);
    }
}

/// Inside a line the next newline from each position is the one ending it.
proof fn lemma_next_newline_in_line(buf: Seq<u8>, k: int, j: int)
    requires
        0 <= k <= j <= buf.len(),
        j == buf.len() || buf[j] == NEWLINE,
        forall|q: int| k <= q < j ==> buf[q] != NEWLINE,
    ensures
        next_newline(buf, k) == j,
    decreases j - k,
{
    if k < j {
        lemma_next_newline_in_line(buf, k + 1, j);
    }
}

/// Appends `buf[start..end]` reversed to `out`.
fn push_reversed(out: &mut Vec<u8>, buf: &[u8], start: usize, end: usize)
    requires
        start <= end <= buf@.len(),
    ensures
        final(out)@.len() == old(out)@.len() + (end - start),
        final(out)@.subrange(0, old(out)@.len() as int) == old(out)@,
        forall|q: int| 0 <= q < end - start ==> #[trigger] final(out)@[old(out)@.len() + q] == buf@[end - 1 - q],
{
    let ghost base = out@;
    let mut k: usize = end;
    while k > start
        invariant
            start <= k <= end <= buf@.len(),
            out@.len() == base.len() + (end - k),
            out@.subrange(0, base.len() as int) == base,
            forall|q: int| 0 <= q < end - k ==> #[trigger] out@[base.len() + q] == buf@[end - 1 - q],
        decreases k - start,
    {
        out.push(buf[k - 1]);
        proof {
            assert(out@.subrange(0, base.len() as int) =~= base);
        }
        k = k - 1;
    }
}

/// Reverses every line of `buf`, keeping the newlines between them.
pub fn reverse(buf: &[u8]) -> (out: Vec<u8>)
    ensures
        out@ == reverse_lines(buf@),
{
    let ghost spec = reverse_lines(buf@);
    let mut out: Vec<u8> = Vec::new();
    let mut line_start: usize = 0;
    let mut i: usize = 0;
    while i < buf.len()
        invariant
            spec == reverse_lines(buf@),
            line_start <= i <= buf.len(),
            line_start == 0 || buf@[line_start - 1] == NEWLINE,
            forall|q: int| line_start <= q < i ==> buf@[q] != NEWLINE,
            out@ == spec.take(line_start as int),
        decreases buf.len() - i,
    {
        if buf[i] == NEWLINE {
            let ghost before = out@;
            push_reversed(&mut out, buf, line_start, i);
            proof {
                assert forall|q: int| line_start <= q < i implies out@[q] == spec[q] by {
                    lemma_last_newline_in_line(buf@, line_start as int, q);
                    lemma_next_newline_in_line(buf@, q, i as int);
                    assert(out@[line_start + (q - line_start)] == buf@[i - 1 - (q - line_start)]);
                }
                assert forall|q: int| 0 <= q < line_start implies out@[q] == spec[q] by {
                    assert(out@.subrange(0, line_start as int)[q] == before[q]);
                }
            }
            out.push(NEWLINE);
            proof {
                assert(spec[i as int] == NEWLINE);
                assert(out@ =~= spec.take(i + 1));
            }
            line_start = i + 1;
        }
        i = i + 1;
    }
    let ghost before = out@;
    push_reversed(&mut out, buf, line_start, buf.len());
    proof {
        let n = buf@.len() as int;
        assert forall|q: int| line_start <= q < n implies out@[q] == spec[q] by {
            lemma_last_newline_in_line(buf@, line_start as int, q);
            lemma_next_newline_in_line(buf@, q, n);
            assert(out@[line_start + (q - line_start)] == buf@[n - 1 - (q - line_start)]);
        }
        assert forall|q: int| 0 <= q < line_start implies out@[q] == spec[q] by {
            assert(out@.subrange(0, line_start as int)[q] == before[q]);
        }
        assert(out@ =~= spec);
    }
    out
}

/// Number of quote bytes among the first `n` bytes of `line`.
pub open spec fn quotes_before(line: Seq<u8>, n: int) -> nat
    decreases n,
{
    if n <= 0 {
        0
    } else {
        quotes_before(line, n - 1) + if line[n - 1] == QUOTE { 1nat } else { 0nat }
    }
}

/// Whether position `i` of `line` separates arguments: a space outside
/// quotes, counting a quote at `i` itself.
pub open spec fn separates(line: Seq<u8>, i: int) -> bool {
    line[i] == SPACE && quotes_before(line, i + 1) % 2 == 0
}

/// `s` without its quote bytes.
pub open spec fn unquote(s: Seq<u8>) -> Seq<u8>
    decreases s.len(),
{
    if s.len() == 0 {
        Seq::empty()
    } else {
        unquote(s.drop_last()) + if s.last() == QUOTE { Seq::empty() } else { seq![s.last()] }
    }
}

/// The arguments of `line` from position `i` on, where the current argument
/// began at `start`: the non-empty runs between separators, each without
/// its quote bytes.
pub open spec fn args_from(line: Seq<u8>, start: int, i: int) -> Seq<Seq<u8>>
    decreases line.len() - i,
{
    if i >= line.len() {
        if start < line.len() { seq![unquote(line.subrange(start, line.len() as int))] } else { Seq::empty() }
    } else if separates(line, i) {
        (if start < i { seq![unquote(line.subrange(start, i))] } else { Seq::empty() }) + args_from(line, i + 1, i + 1)
    } else {
        args_from(line, start, i + 1)
    }
}

/// The bytes of `s[a..b]` without its quote bytes.
fn copy_unquoted(s: &[u8], a: usize, b: usize) -> (v: Vec<u8>)
    requires
        a <= b <= s@.len(),
    ensures
        v@ == unquote(s@.subrange(a as int, b as int)),
{
    let mut v: Vec<u8> = Vec::new();
    let mut i: usize = a;
    proof {
        assert(s@.subrange(a as int, a as int) =~= Seq::<u8>::empty());
        assert(v@ =~= unquote(s@.subrange(a as int, a as int)));
    }
    while i < b
        invariant
            a <= i <= b <= s@.len(),
            v@ == unquote(s@.subrange(a as int, i as int)),
        decreases b - i,
    {
        proof {
            assert(s@.subrange(a as int, i + 1).drop_last() =~= s@.subrange(a as int, i as int));
            assert(s@.subrange(a as int, i + 1).last() == s@[i as int]);
        }
        if s[i] != QUOTE {
            v.push(s[i]);
            proof {
                assert(v@ =~= unquote(s@.subrange(a as int, i as int)) + seq![s@[i as int]]);
            }
        } else {
            proof {
                assert(v@ =~= unquote(s@.subrange(a as int, i as int)) + Seq::<u8>::empty());
            }
        }
        i = i + 1;
    }
    v
}

/// Splits a command line into its arguments at the spaces outside double
/// quotes; the quotes do not go into the arguments, and empty runs between
/// separators are dropped.
pub fn get_args(command_line: &[u8]) -> (args: Vec<Vec<u8>>)
    ensures
        args@.map_values(|a: Vec<u8>| a@) == args_from(command_line@, 0, 0),
{
    let ghost line = command_line@;
    let mut args: Vec<Vec<u8>> = Vec::new();
    let mut in_quote = false;
    let mut arg_start: usize = 0;
    let mut pos: usize = 0;
    proof {
        assert(args@.map_values(|a: Vec<u8>| a@) =~= Seq::<Seq<u8>>::empty());
        assert(Seq::<Seq<u8>>::empty() + args_from(line, 0, 0) =~= args_from(line, 0, 0));
    }
    while pos < command_line.len()
        invariant
            line == command_line@,
            arg_start <= pos <= line.len(),
            in_quote == (quotes_before(line, pos as int) % 2 == 1),
            args@.map_values(|a: Vec<u8>| a@) + args_from(line, arg_start as int, pos as int) == args_from(line, 0, 0),
        decreases line.len() - pos,
    {
        let ghost acc = args@.map_values(|a: Vec<u8>| a@);
        if command_line[pos] == QUOTE {
            in_quote = !in_quote;
        }
        assert(in_quote == (quotes_before(line, pos + 1) % 2 == 1));
        if command_line[pos] == SPACE && !in_quote {
            assert(separates(line, pos as int));
            if arg_start != pos {
                let a = copy_unquoted(command_line, arg_start, pos);
                args.push(a);
                proof {
                    let u = unquote(line.subrange(arg_start as int, pos as int));
                    assert(args@.map_values(|a: Vec<u8>| a@) =~= acc.push(u));
                    assert(acc.push(u) + args_from(line, pos + 1, pos + 1)
                        =~= acc + (seq![u] + args_from(line, pos + 1, pos + 1)));
                }
            } else {
                proof {
                    assert(Seq::<Seq<u8>>::empty() + args_from(line, pos + 1, pos + 1) =~= args_from(line, pos + 1, pos + 1));
                }
            }
            arg_start = pos + 1;
        } else {
            assert(!separates(line, pos as int));
        }
        pos = pos + 1;
    }
    let ghost acc = args@.map_values(|a: Vec<u8>| a@);
    if arg_start != command_line.len() {
        let a = copy_unquoted(command_line, arg_start, command_line.len());
        args.push(a);
        proof {
            let u = unquote(line.subrange(arg_start as int, line.len() as int));
            assert(args@.map_values(|a: Vec<u8>| a@) =~= acc.push(u));
            assert(acc + args_from(line, arg_start as int, pos as int) =~= acc.push(u));
        }
    } else {
        proof {
            assert(acc + args_from(line, arg_start as int, pos as int) =~= acc);
        }
    }
    args
}

/// `val` rounded up to a multiple of 64.
pub fn align_up_64(val: usize) -> (r: usize)
    requires
        val + 63 <= usize::MAX,
    ensures
        r % 64 == 0,
        val <= r < val + 64,
{
    let s: usize = val + 63;
    let r: usize = s & !63usize;
    assert(r % 64 == 0 && val <= r && r < val + 64) by (bit_vector)
        requires
            s == val + 63,
            r == s & !63usize,
    ;
    r
}

} // verus!
