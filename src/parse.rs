use vstd::prelude::*;

use crate::protocol::{
    args_view, opt_view, upper_byte, upper_seq, Command, CommandModel, IRCString, append_bytes, copy_range,
};
use crate::sock::{MessageIn, MessageOut};

verus! {

pub open spec fn is_space(b: u8) -> bool {
    b == 32
}

pub open spec fn is_colon(b: u8) -> bool {
    b == 58
}

/// Length of the leading run of non-space bytes.
pub open spec fn word_end(s: Seq<u8>) -> nat
    decreases s.len(),
{
    if s.len() == 0 || is_space(s[0]) {
        0
    } else {
        1 + word_end(s.drop_first())
    }
}

/// The argument tokens of a line: space-separated words, except that a word
/// beginning with a colon takes the rest of the line, spaces and all.
pub open spec fn split_spec(s: Seq<u8>) -> Seq<Seq<u8>>
    decreases s.len(),
{
    if s.len() == 0 {
        seq![]
    } else if is_colon(s[0]) {
        seq![s.subrange(1, s.len() as int)]
    } else if word_end(s) < s.len() {
        seq![s.subrange(0, word_end(s) as int)] + split_spec(
            s.subrange(word_end(s) as int + 1, s.len() as int),
        )
    } else {
        seq![s]
    }
}

/// The prefix of a line, if it starts with a colon: the bytes up to the first space.
pub open spec fn prefix_spec(f: Seq<u8>) -> Option<Seq<u8>> {
    if f.len() > 0 && is_colon(f[0]) {
        Some(f.subrange(1, 1 + word_end(f.drop_first()) as int))
    } else {
        None
    }
}

/// What follows the prefix and the space that ends it.
pub open spec fn body_spec(f: Seq<u8>) -> Seq<u8> {
    if f.len() > 0 && is_colon(f[0]) {
        let e: int = 1 + word_end(f.drop_first()) as int;
        if e + 1 <= f.len() {
            f.subrange(e + 1, f.len() as int)
        } else {
            seq![]
        }
    } else {
        f
    }
}

/// The command a line stands for, if it has at least one token.
pub open spec fn parse_spec(f: Seq<u8>) -> Option<CommandModel> {
    let toks = split_spec(body_spec(f));
    if toks.len() == 0 {
        None
    } else {
        Some(CommandModel { pfx: prefix_spec(f), cmd: upper_seq(toks[0]), args: toks.drop_first() })
    }
}

/// The line of a command, terminator excluded: `:prefix ` if any, the
/// command token, then a space before each argument.
pub open spec fn render_line(c: CommandModel) -> Seq<u8> {
    let head = match c.pfx {
        Some(p) => seq![58u8] + p + seq![32u8],
        None => seq![],
    };
    head + c.cmd + join_args(c.args)
}

/// Each argument preceded by one space.
pub open spec fn join_args(args: Seq<Seq<u8>>) -> Seq<u8>
    decreases args.len(),
{
    if args.len() == 0 {
        seq![]
    } else {
        join_args(args.drop_last()) + seq![32u8] + args.last()
    }
}

pub proof fn lemma_word_end(s: Seq<u8>)
    ensures
        word_end(s) <= s.len(),
        forall|j: int| 0 <= j < word_end(s) ==> !is_space(#[trigger] s[j]),
        word_end(s) < s.len() ==> is_space(s[word_end(s) as int]),
    decreases s.len(),
{
    if s.len() > 0 && !is_space(s[0]) {
        lemma_word_end(s.drop_first());
        assert forall|j: int| 0 <= j < word_end(s) implies !is_space(#[trigger] s[j]) by {
            if j > 0 {
                assert(s[j] == s.drop_first()[j - 1]);
            }
        }
    }
}

pub proof fn lemma_word_end_unique(s: Seq<u8>, e: nat)
    requires
        e <= s.len(),
        forall|j: int| 0 <= j < e ==> !is_space(#[trigger] s[j]),
        e < s.len() ==> is_space(s[e as int]),
    ensures
        word_end(s) == e,
    decreases s.len(),
{
    if e > 0 {
        assert(!is_space(s[0]));
        let t = s.drop_first();
        assert forall|j: int| 0 <= j < e - 1 implies !is_space(#[trigger] t[j]) by {
            assert(t[j] == s[j + 1]);
        }
        lemma_word_end_unique(t, (e - 1) as nat);
    }
}

pub open spec fn no_space(s: Seq<u8>) -> bool {
    forall|i: int| 0 <= i < s.len() ==> !is_space(#[trigger] s[i])
}

/// A token that reads back as itself in the middle of a line: no space,
/// no leading colon.
pub open spec fn plain_token(s: Seq<u8>) -> bool {
    no_space(s) && !(s.len() > 0 && is_colon(s[0]))
}

/// A command whose line parses back to it: a prefix without spaces; plain
/// command token and arguments; not both empty; a last argument that is
/// not empty. A trailing argument with spaces, or one that is empty, does
/// not survive since `dump` writes no colon before it.
pub open spec fn wire_safe(c: CommandModel) -> bool {
    &&& match c.pfx {
        Some(p) => no_space(p),
        None => true,
    }
    &&& plain_token(c.cmd)
    &&& (c.cmd.len() > 0 || c.args.len() > 0)
    &&& forall|i: int| 0 <= i < c.args.len() ==> plain_token(#[trigger] c.args[i])
    &&& (c.args.len() > 0 ==> c.args.last().len() > 0)
}

proof fn lemma_join_front(args: Seq<Seq<u8>>)
    requires
        args.len() > 0,
    ensures
        join_args(args) == seq![32u8] + args[0] + join_args(args.drop_first()),
    decreases args.len(),
{
    if args.len() == 1 {
        assert(args.drop_last() =~= Seq::<Seq<u8>>::empty());
        assert(args.drop_first() =~= Seq::<Seq<u8>>::empty());
        assert(join_args(args) =~= seq![32u8] + args[0] + join_args(args.drop_first()));
    } else {
        let dl = args.drop_last();
        lemma_join_front(dl);
        assert(dl.drop_first() =~= args.drop_first().drop_last());
        assert(args.drop_first().last() == args.last());
        assert(dl[0] == args[0]);
        assert(join_args(args) =~= seq![32u8] + args[0] + join_args(args.drop_first()));
    }
}

proof fn lemma_word_end_of(w: Seq<u8>, rest: Seq<u8>)
    requires
        no_space(w),
        rest.len() > 0 ==> is_space(rest[0]),
    ensures
        word_end(w + rest) == w.len(),
{
    let s = w + rest;
    assert forall|j: int| 0 <= j < w.len() implies !is_space(#[trigger] s[j]) by {
        assert(s[j] == w[j]);
    }
    if w.len() < s.len() {
        assert(s[w.len() as int] == rest[0]);
    }
    lemma_word_end_unique(s, w.len());
}

proof fn lemma_split_join(w: Seq<u8>, args: Seq<Seq<u8>>)
    requires
        plain_token(w),
        forall|i: int| 0 <= i < args.len() ==> plain_token(#[trigger] args[i]),
        w.len() > 0 || args.len() > 0,
        args.len() > 0 ==> args.last().len() > 0,
    ensures
        split_spec(w + join_args(args)) == seq![w] + args,
    decreases args.len(),
{
    if args.len() == 0 {
        let s = w + join_args(args);
        assert(s =~= w);
        lemma_word_end_of(w, seq![]);
        assert(w + Seq::<u8>::empty() =~= w);
        assert(split_spec(s) =~= seq![w] + args);
    } else {
        lemma_join_front(args);
        let a0 = args[0];
        let rest = args.drop_first();
        let tail = a0 + join_args(rest);
        let s = w + join_args(args);
        assert(s =~= w + (seq![32u8] + tail));
        lemma_word_end_of(w, seq![32u8] + tail);
        assert(s[0] != 58u8) by {
            if w.len() == 0 {
                assert(s[0] == 32u8);
            } else {
                assert(s[0] == w[0]);
            }
        }
        assert(s.subrange(0, w.len() as int) =~= w);
        assert(s.subrange(w.len() as int + 1, s.len() as int) =~= tail);
        assert forall|i: int| 0 <= i < rest.len() implies plain_token(#[trigger] rest[i]) by {
            assert(rest[i] == args[i + 1]);
        }
        assert(plain_token(args[0]));
        if rest.len() > 0 {
            assert(rest.last() == args.last());
        }
        lemma_split_join(a0, rest);
        assert(split_spec(s) =~= seq![w] + args);
    }
}

proof fn lemma_upper_idem(s: Seq<u8>)
    ensures
        upper_seq(upper_seq(s)) == upper_seq(s),
{
    assert(upper_seq(upper_seq(s)) =~= upper_seq(s));
}

/// A command whose line survives the wire (see `wire_safe`), with its token
/// already in upper case, parses back from its rendered line unchanged.
pub proof fn lemma_render_parse(c: CommandModel)
    requires
        wire_safe(c),
        c.cmd == upper_seq(c.cmd),
    ensures
        parse_spec(render_line(c)) == Some(c),
{
    let f = render_line(c);
    let body = c.cmd + join_args(c.args);
    lemma_split_join(c.cmd, c.args);
    if c.args.len() > 0 {
        lemma_join_front(c.args);
    }
    match c.pfx {
        Some(p) => {
            assert(f =~= seq![58u8] + (p + (seq![32u8] + body)));
            assert(f.drop_first() =~= p + (seq![32u8] + body));
            lemma_word_end_of(p, seq![32u8] + body);
            assert(f.subrange(1, 1 + p.len() as int) =~= p);
            assert(f.subrange(p.len() as int + 2, f.len() as int) =~= body);
            assert(body_spec(f) == body);
        },
        None => {
            assert(f =~= body);
            assert(body.len() > 0);
            assert(body[0] != 58u8) by {
                if c.cmd.len() == 0 {
                    assert(body[0] == 32u8);
                } else {
                    assert(body[0] == c.cmd[0]);
                }
            }
        },
    }
    assert((seq![c.cmd] + c.args)[0] == c.cmd);
    assert((seq![c.cmd] + c.args).drop_first() =~= c.args);
}

/// Round trip: a line that parses to a command which survives the wire
/// (see `wire_safe`) gives that same prefix, upper-cased token and
/// arguments when the command is rendered and parsed again.
pub proof fn lemma_round_trip(f: Seq<u8>)
    requires
        parse_spec(f).is_some(),
        wire_safe(parse_spec(f).unwrap()),
    ensures
        parse_spec(render_line(parse_spec(f).unwrap())) == parse_spec(f),
{
    let c = parse_spec(f).unwrap();
    lemma_upper_idem(split_spec(body_spec(f))[0]);
    lemma_render_parse(c);
}

/// Splits a line into its argument tokens (see `split_spec`).
pub fn split_args(src: &[u8]) -> (r: Vec<IRCString>)
    ensures
        args_view(r@) == split_spec(src@),
{
    let mut out: Vec<IRCString> = Vec::new();
    let n = src.len();
    let mut start: usize = 0;
    assert(src@.subrange(0, n as int) =~= src@);
    assert(args_view(out@) + split_spec(src@) =~= split_spec(src@));
    loop
        invariant_except_break
            args_view(out@) + split_spec(src@.subrange(start as int, n as int)) == split_spec(src@),
        invariant
            n == src@.len(),
            start <= n,
        ensures
            args_view(out@) == split_spec(src@),
        decreases n - start,
    {
        let ghost rest = src@.subrange(start as int, n as int);
        let ghost before = args_view(out@);
        if start >= n {
            assert(rest.len() == 0);
            assert(before + split_spec(rest) =~= before);
            break;
        }
        if src[start] == 58 {
            let tok = copy_range(src, start + 1, n);
            out.push(IRCString::new(tok));
            proof {
                assert(rest.subrange(1, rest.len() as int) =~= tok@);
                assert(args_view(out@) =~= before.push(tok@));
                assert(before + split_spec(rest) =~= before.push(tok@));
            }
            break;
        }
        let mut end: usize = start;
        while end < n && src[end] != 32
            invariant
                n == src@.len(),
                start <= end <= n,
                forall|j: int| start <= j < end ==> !is_space(#[trigger] src@[j]),
            decreases n - end,
        {
            end = end + 1;
        }
        proof {
            assert forall|j: int| 0 <= j < end - start implies !is_space(#[trigger] rest[j]) by {
                assert(rest[j] == src@[start + j]);
            }
            lemma_word_end_unique(rest, (end - start) as nat);
        }
        let tok = copy_range(src, start, end);
        out.push(IRCString::new(tok));
        proof {
            assert(rest.subrange(0, (end - start) as int) =~= tok@);
            assert(args_view(out@) =~= before.push(tok@));
        }
        if end < n {
            proof {
                let next = src@.subrange(end + 1, n as int);
                assert(rest.subrange((end - start) + 1, rest.len() as int) =~= next);
                assert(split_spec(rest) == seq![tok@] + split_spec(next));
                assert(before + split_spec(rest) =~= args_view(out@) + split_spec(next));
            }
            start = end + 1;
        } else {
            proof {
                assert(rest =~= tok@);
                assert(before + split_spec(rest) =~= args_view(out@));
            }
            break;
        }
    }
    out
}

/// Parses one received line into a command; `None` when it has no token.
pub fn parse(msg: &MessageIn) -> (r: Option<Command>)
    ensures
        match r {
            Some(c) => parse_spec(msg.data@) == Some(c@),
            None => parse_spec(msg.data@).is_none(),
        },
{
    let data = msg.data.bytes.as_slice();
    let ghost f = data@;
    let n = data.len();
    let mut body_start: usize = 0;
    let pfx = if n > 0 && data[0] == 58 {
        let mut end: usize = 1;
        while end < n && data[end] != 32
            invariant
                n == f.len(),
                f == data@,
                1 <= end <= n,
                forall|j: int| 1 <= j < end ==> !is_space(#[trigger] f[j]),
            decreases n - end,
        {
            end = end + 1;
        }
        proof {
            let t = f.drop_first();
            assert forall|j: int| 0 <= j < end - 1 implies !is_space(#[trigger] t[j]) by {
                assert(t[j] == f[j + 1]);
            }
            if end < n {
                assert(t[end - 1] == f[end as int]);
            }
            lemma_word_end_unique(t, (end - 1) as nat);
        }
        body_start = if end < n { end + 1 } else { n };
        Some(IRCString::new(copy_range(data, 1, end)))
    } else {
        None
    };
    assert(opt_view(pfx) == prefix_spec(f));
    let body = copy_range(data, body_start, n);
    assert(body@ =~= body_spec(f));
    let mut args = split_args(body.as_slice());
    if args.len() == 0 {
        return None;
    }
    let ghost toks = split_spec(body@);
    let mut cmd = args.remove(0);
    cmd.upper_inplace();
    proof {
        assert(args_view(args@) =~= toks.drop_first());
    }
    let r = Command { pfx, cmd, args };
    assert(r@ == parse_spec(f).unwrap());
    Some(r)
}

/// Renders a command as a line with its terminator, due `delay` milliseconds
/// after `now`. No escaping is done.
pub fn dump(command: Command, now: u64, delay: u64) -> (r: MessageOut)
    requires
        now + delay <= u64::MAX,
    ensures
        r.data@ == render_line(command@) + seq![13u8, 10u8],
        r.deadline == now + delay,
{
    let mut out: Vec<u8> = Vec::new();
    match &command.pfx {
        Some(p) => {
            out.push(58);
            append_bytes(&mut out, p.bytes.as_slice());
            out.push(32);
        },
        None => {},
    }
    let ghost head = out@;
    append_bytes(&mut out, command.cmd.bytes.as_slice());
    let ghost args = args_view(command.args@);
    let mut i: usize = 0;
    while i < command.args.len()
        invariant
            0 <= i <= args.len(),
            args == args_view(command.args@),
            out@ == head + command.cmd@ + join_args(args.subrange(0, i as int)),
        decreases args.len() - i,
    {
        out.push(32);
        append_bytes(&mut out, command.args[i].bytes.as_slice());
        proof {
            let s = args.subrange(0, i + 1);
            assert(s.drop_last() =~= args.subrange(0, i as int));
            assert(out@ =~= head + command.cmd@ + join_args(s));
        }
        i = i + 1;
    }
    assert(args.subrange(0, args.len() as int) =~= args);
    out.push(13);
    out.push(10);
    assert(out@ =~= render_line(command@) + seq![13u8, 10u8]);
    MessageOut { deadline: now + delay, data: IRCString::new(out) }
}

} // verus!
