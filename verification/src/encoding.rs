//! The encoding of a step tells steps apart: steps that hold different
//! things have different bytes. So a stamp, which hashes the bytes, differs
//! between steps unless the hash collides.

use crate::schema::{
    args_fit, args_list_fits, args_views, command_fits, encode_args_list, encode_len,
    encode_opt_mode, encode_opt_str, encode_str, encode_strs, text_fits, text_views, texts_fit,
    Command, CommandArgs, CommandCopy, CommandExec, CommandExecType,
};
use vstd::bytes::*;
use vstd::prelude::*;
use vstd::utf8::*;

verus! {

/// Two byte strings that start with pieces of the same length and are the
/// same, have the same pieces and the same rests.
proof fn lemma_split_at_same_length(a: Seq<u8>, r1: Seq<u8>, b: Seq<u8>, r2: Seq<u8>)
    requires
        a + r1 == b + r2,
        a.len() == b.len(),
    ensures
        a == b,
        r1 == r2,
{
    assert((a + r1).take(a.len() as int) =~= a);
    assert((b + r2).take(b.len() as int) =~= b);
    assert((a + r1).skip(a.len() as int) =~= r1);
    assert((b + r2).skip(b.len() as int) =~= r2);
}

/// A length is read back from the front of what is encoded.
proof fn lemma_len_unique(n: nat, r1: Seq<u8>, m: nat, r2: Seq<u8>)
    requires
        n <= u64::MAX,
        m <= u64::MAX,
        encode_len(n) + r1 == encode_len(m) + r2,
    ensures
        n == m,
        r1 == r2,
{
    lemma_auto_spec_u64_to_from_le_bytes();
    lemma_split_at_same_length(encode_len(n), r1, encode_len(m), r2);
    assert(spec_u64_from_le_bytes(spec_u64_to_le_bytes(n as u64)) == n as u64);
    assert(spec_u64_from_le_bytes(spec_u64_to_le_bytes(m as u64)) == m as u64);
}

/// A string is read back from the front of what is encoded.
proof fn lemma_str_unique(s: Seq<char>, r1: Seq<u8>, t: Seq<char>, r2: Seq<u8>)
    requires
        text_fits(s),
        text_fits(t),
        encode_str(s) + r1 == encode_str(t) + r2,
    ensures
        s == t,
        r1 == r2,
{
    let a = encode_utf8(s);
    let b = encode_utf8(t);
    assert(encode_str(s) + r1 =~= encode_len(a.len()) + (a + r1));
    assert(encode_str(t) + r2 =~= encode_len(b.len()) + (b + r2));
    lemma_len_unique(a.len(), a + r1, b.len(), b + r2);
    lemma_split_at_same_length(a, r1, b, r2);
    encode_utf8_decode_utf8(s);
    encode_utf8_decode_utf8(t);
}

/// The encoding of a list of strings starts with the encoding of the first.
proof fn lemma_strs_front(items: Seq<String>)
    requires
        items.len() > 0,
    ensures
        encode_strs(items) == encode_str(items[0]@) + encode_strs(items.drop_first()),
    decreases items.len(),
{
    if items.len() == 1 {
        assert(items.drop_last() =~= Seq::<String>::empty());
        assert(items.drop_first() =~= Seq::<String>::empty());
        assert(encode_strs(items.drop_last()) =~= Seq::<u8>::empty());
        assert(encode_strs(items.drop_first()) =~= Seq::<u8>::empty());
        assert(items.last() == items[0]);
        assert(encode_strs(items) =~= encode_str(items[0]@));
        assert(encode_str(items[0]@) + encode_strs(items.drop_first()) =~= encode_str(items[0]@));
    } else {
        let init = items.drop_last();
        lemma_strs_front(init);
        assert(init.drop_first() =~= items.drop_first().drop_last());
        assert(items.drop_first().last() == items.last());
        assert(encode_strs(items) =~= encode_str(items[0]@) + encode_strs(items.drop_first()));
    }
}

/// Lists of strings of the same number are read back from the front of what
/// is encoded.
proof fn lemma_strs_unique(a: Seq<String>, r1: Seq<u8>, b: Seq<String>, r2: Seq<u8>)
    requires
        texts_fit(a),
        texts_fit(b),
        a.len() == b.len(),
        encode_strs(a) + r1 == encode_strs(b) + r2,
    ensures
        text_views(a) == text_views(b),
        r1 == r2,
    decreases a.len(),
{
    if a.len() == 0 {
        assert(encode_strs(a) + r1 =~= r1);
        assert(encode_strs(b) + r2 =~= r2);
        assert(text_views(a) =~= text_views(b));
    } else {
        lemma_strs_front(a);
        lemma_strs_front(b);
        let ta = a.drop_first();
        let tb = b.drop_first();
        assert(encode_strs(a) + r1 =~= encode_str(a[0]@) + (encode_strs(ta) + r1));
        assert(encode_strs(b) + r2 =~= encode_str(b[0]@) + (encode_strs(tb) + r2));
        lemma_str_unique(a[0]@, encode_strs(ta) + r1, b[0]@, encode_strs(tb) + r2);
        assert forall|i: int| 0 <= i < ta.len() implies text_fits((#[trigger] ta[i])@) by {
            assert(ta[i] == a[i + 1]);
        }
        assert forall|i: int| 0 <= i < tb.len() implies text_fits((#[trigger] tb[i])@) by {
            assert(tb[i] == b[i + 1]);
        }
        lemma_strs_unique(ta, r1, tb, r2);
        assert forall|i: int| 0 <= i < a.len() implies text_views(a)[i] == text_views(b)[i] by {
            if i > 0 {
                assert(text_views(ta)[i - 1] == text_views(tb)[i - 1]);
                assert(ta[i - 1] == a[i] && tb[i - 1] == b[i]);
            }
        }
        assert(text_views(a) =~= text_views(b));
    }
}

/// What starts with the same byte and is the same, is the same behind the
/// byte.
proof fn lemma_tag_unique(tag1: u8, r1: Seq<u8>, tag2: u8, r2: Seq<u8>)
    requires
        seq![tag1] + r1 == seq![tag2] + r2,
    ensures
        tag1 == tag2,
        r1 == r2,
{
    assert((seq![tag1] + r1)[0] == tag1);
    assert((seq![tag2] + r2)[0] == tag2);
    lemma_split_at_same_length(seq![tag1], r1, seq![tag2], r2);
}

/// The byte that tells the form of a process.
spec fn args_tag(a: CommandArgs) -> u8 {
    match a {
        CommandArgs::Shell(_) => 0u8,
        CommandArgs::Exec { .. } => 1u8,
    }
}

/// What follows the byte that tells the form of a process.
spec fn args_body(a: CommandArgs) -> Seq<u8> {
    match a {
        CommandArgs::Shell(script) => encode_str(script@),
        CommandArgs::Exec { process, args } => encode_str(process@) + (encode_len(args@.len())
            + encode_strs(args@)),
    }
}

/// A process is read back from the front of what is encoded.
proof fn lemma_args_unique(a: CommandArgs, r1: Seq<u8>, b: CommandArgs, r2: Seq<u8>)
    requires
        args_fit(a),
        args_fit(b),
        a.encoding() + r1 == b.encoding() + r2,
    ensures
        a@ == b@,
        r1 == r2,
{
    assert(a.encoding() + r1 =~= seq![args_tag(a)] + (args_body(a) + r1));
    assert(b.encoding() + r2 =~= seq![args_tag(b)] + (args_body(b) + r2));
    lemma_tag_unique(args_tag(a), args_body(a) + r1, args_tag(b), args_body(b) + r2);
    match a {
        CommandArgs::Shell(s) => {
            let t = b->Shell_0;
            lemma_str_unique(s@, r1, t@, r2);
        },
        CommandArgs::Exec { process: p, args: x } => {
            let q = b->Exec_process;
            let y = b->Exec_args;
            let rest1 = encode_len(x@.len()) + (encode_strs(x@) + r1);
            let rest2 = encode_len(y@.len()) + (encode_strs(y@) + r2);
            assert(args_body(a) + r1 =~= encode_str(p@) + rest1);
            assert(args_body(b) + r2 =~= encode_str(q@) + rest2);
            lemma_str_unique(p@, rest1, q@, rest2);
            lemma_len_unique(x@.len(), encode_strs(x@) + r1, y@.len(), encode_strs(y@) + r2);
            lemma_strs_unique(x@, r1, y@, r2);
        },
    }
}

/// The encoding of a list of processes starts with the encoding of the
/// first.
proof fn lemma_args_list_front(items: Seq<CommandArgs>)
    requires
        items.len() > 0,
    ensures
        encode_args_list(items) == items[0].encoding() + encode_args_list(items.drop_first()),
    decreases items.len(),
{
    if items.len() == 1 {
        assert(items.drop_last() =~= Seq::<CommandArgs>::empty());
        assert(items.drop_first() =~= Seq::<CommandArgs>::empty());
        assert(encode_args_list(items.drop_last()) =~= Seq::<u8>::empty());
        assert(encode_args_list(items.drop_first()) =~= Seq::<u8>::empty());
        assert(items.last() == items[0]);
        assert(encode_args_list(items) =~= items[0].encoding());
        assert(items[0].encoding() + encode_args_list(items.drop_first())
            =~= items[0].encoding());
    } else {
        let init = items.drop_last();
        lemma_args_list_front(init);
        assert(init.drop_first() =~= items.drop_first().drop_last());
        assert(items.drop_first().last() == items.last());
        assert(encode_args_list(items) =~= items[0].encoding() + encode_args_list(
            items.drop_first(),
        ));
    }
}

/// Lists of processes of the same number are read back from the front of
/// what is encoded.
proof fn lemma_args_list_unique(
    a: Seq<CommandArgs>,
    r1: Seq<u8>,
    b: Seq<CommandArgs>,
    r2: Seq<u8>,
)
    requires
        args_list_fits(a),
        args_list_fits(b),
        a.len() == b.len(),
        encode_args_list(a) + r1 == encode_args_list(b) + r2,
    ensures
        args_views(a) == args_views(b),
        r1 == r2,
    decreases a.len(),
{
    if a.len() == 0 {
        assert(encode_args_list(a) + r1 =~= r1);
        assert(encode_args_list(b) + r2 =~= r2);
        assert(args_views(a) =~= args_views(b));
    } else {
        lemma_args_list_front(a);
        lemma_args_list_front(b);
        let ta = a.drop_first();
        let tb = b.drop_first();
        assert(encode_args_list(a) + r1 =~= a[0].encoding() + (encode_args_list(ta) + r1));
        assert(encode_args_list(b) + r2 =~= b[0].encoding() + (encode_args_list(tb) + r2));
        lemma_args_unique(a[0], encode_args_list(ta) + r1, b[0], encode_args_list(tb) + r2);
        assert forall|i: int| 0 <= i < ta.len() implies args_fit(#[trigger] ta[i]) by {
            assert(ta[i] == a[i + 1]);
        }
        assert forall|i: int| 0 <= i < tb.len() implies args_fit(#[trigger] tb[i]) by {
            assert(tb[i] == b[i + 1]);
        }
        lemma_args_list_unique(ta, r1, tb, r2);
        assert forall|i: int| 0 <= i < a.len() implies args_views(a)[i] == args_views(b)[i] by {
            if i > 0 {
                assert(args_views(ta)[i - 1] == args_views(tb)[i - 1]);
                assert(ta[i - 1] == a[i] && tb[i - 1] == b[i]);
            }
        }
        assert(args_views(a) =~= args_views(b));
    }
}

/// Optional permission bits are read back from what is encoded.
proof fn lemma_mode_unique(p: Option<u32>, q: Option<u32>)
    requires
        encode_opt_mode(p) == encode_opt_mode(q),
    ensures
        p == q,
{
    lemma_auto_spec_u32_to_from_le_bytes();
    assert(encode_opt_mode(p)[0] == (if p is Some {
        1u8
    } else {
        0u8
    }));
    assert(encode_opt_mode(q)[0] == (if q is Some {
        1u8
    } else {
        0u8
    }));
    if p is Some && q is Some {
        lemma_tag_unique(1u8, spec_u32_to_le_bytes(p->0), 1u8, spec_u32_to_le_bytes(q->0));
        assert(spec_u32_from_le_bytes(spec_u32_to_le_bytes(p->0)) == p->0);
        assert(spec_u32_from_le_bytes(spec_u32_to_le_bytes(q->0)) == q->0);
    }
}

/// A copy step is read back from what is encoded.
proof fn lemma_copy_unique(x: CommandCopy, y: CommandCopy)
    requires
        text_fits(x.src@),
        text_fits(x.dest@),
        text_fits(y.src@),
        text_fits(y.dest@),
        x.encoding() == y.encoding(),
    ensures
        x@ == y@,
{
    let m1 = encode_opt_mode(x.mode);
    let m2 = encode_opt_mode(y.mode);
    let d1 = encode_str(x.dest@) + m1;
    let d2 = encode_str(y.dest@) + m2;
    assert(x.encoding() =~= encode_str(x.src@) + d1);
    assert(y.encoding() =~= encode_str(y.src@) + d2);
    lemma_str_unique(x.src@, d1, y.src@, d2);
    lemma_str_unique(x.dest@, m1, y.dest@, m2);
    lemma_mode_unique(x.mode, y.mode);
}

/// The place of an exec step is read back from the front of what is
/// encoded.
proof fn lemma_kind_unique(x: CommandExecType, r1: Seq<u8>, y: CommandExecType, r2: Seq<u8>)
    requires
        x matches CommandExecType::Ocf { root } ==> text_fits(root@),
        y matches CommandExecType::Ocf { root } ==> text_fits(root@),
        x.encoding() + r1 == y.encoding() + r2,
    ensures
        x@ == y@,
        r1 == r2,
{
    let tag = |k: CommandExecType|
        match k {
            CommandExecType::Image => 0u8,
            CommandExecType::Host => 1u8,
            CommandExecType::Ocf { .. } => 2u8,
        };
    let body = |k: CommandExecType|
        match k {
            CommandExecType::Ocf { root } => encode_str(root@),
            _ => Seq::<u8>::empty(),
        };
    assert(x.encoding() + r1 =~= seq![tag(x)] + (body(x) + r1));
    assert(y.encoding() + r2 =~= seq![tag(y)] + (body(y) + r2));
    lemma_tag_unique(tag(x), body(x) + r1, tag(y), body(y) + r2);
    match x {
        CommandExecType::Ocf { root: p } => {
            let q = y->Ocf_root;
            lemma_str_unique(p@, r1, q@, r2);
        },
        _ => {
            assert(body(x) + r1 =~= r1);
            assert(body(y) + r2 =~= r2);
        },
    }
}

/// An optional string is read back from the front of what is encoded.
proof fn lemma_opt_str_unique(x: Option<String>, r1: Seq<u8>, y: Option<String>, r2: Seq<u8>)
    requires
        x matches Some(s) ==> text_fits(s@),
        y matches Some(s) ==> text_fits(s@),
        encode_opt_str(x) + r1 == encode_opt_str(y) + r2,
    ensures
        x is Some == y is Some,
        x is Some ==> (x->0)@ == (y->0)@,
        r1 == r2,
{
    let tag = |k: Option<String>|
        match k {
            None => 0u8,
            Some(_) => 1u8,
        };
    let body = |k: Option<String>|
        match k {
            Some(s) => encode_str(s@),
            None => Seq::<u8>::empty(),
        };
    assert(encode_opt_str(x) + r1 =~= seq![tag(x)] + (body(x) + r1));
    assert(encode_opt_str(y) + r2 =~= seq![tag(y)] + (body(y) + r2));
    lemma_tag_unique(tag(x), body(x) + r1, tag(y), body(y) + r2);
    match x {
        Some(p) => {
            lemma_str_unique(p@, r1, (y->0)@, r2);
        },
        None => {
            assert(body(x) + r1 =~= r1);
            assert(body(y) + r2 =~= r2);
        },
    }
}

/// An exec step is read back from what is encoded.
proof fn lemma_exec_unique(x: CommandExec, y: CommandExec)
    requires
        command_fits(Command::Exec(x)),
        command_fits(Command::Exec(y)),
        x.encoding() == y.encoding(),
    ensures
        x@ == y@,
{
    let none = Seq::<u8>::empty();
    let l1 = encode_len(x.commands@.len()) + encode_args_list(x.commands@);
    let l2 = encode_len(y.commands@.len()) + encode_args_list(y.commands@);
    let c1 = encode_opt_str(x.cwd) + l1;
    let c2 = encode_opt_str(y.cwd) + l2;
    assert(x.encoding() =~= x.kind.encoding() + c1);
    assert(y.encoding() =~= y.kind.encoding() + c2);
    lemma_kind_unique(x.kind, c1, y.kind, c2);
    lemma_opt_str_unique(x.cwd, l1, y.cwd, l2);
    lemma_len_unique(
        x.commands@.len(),
        encode_args_list(x.commands@),
        y.commands@.len(),
        encode_args_list(y.commands@),
    );
    assert(encode_args_list(x.commands@) + none =~= encode_args_list(x.commands@));
    assert(encode_args_list(y.commands@) + none =~= encode_args_list(y.commands@));
    lemma_args_list_unique(x.commands@, none, y.commands@, none);
}

/// Steps with the same encoding hold the same.
///
/// With this, the stamps of two steps that differ in anything, be it one
/// character of one argument, are the hashes of different bytes.
pub proof fn lemma_encoding_unique(a: Command, b: Command)
    requires
        command_fits(a),
        command_fits(b),
        a.encoding() == b.encoding(),
    ensures
        a@ == b@,
{
    let tag = |c: Command|
        match c {
            Command::Copy(_) => 0u8,
            Command::Exec(_) => 1u8,
        };
    let body = |c: Command|
        match c {
            Command::Copy(copy) => copy.encoding(),
            Command::Exec(exec) => exec.encoding(),
        };
    assert(a.encoding() =~= seq![tag(a)] + body(a));
    assert(b.encoding() =~= seq![tag(b)] + body(b));
    lemma_tag_unique(tag(a), body(a), tag(b), body(b));
    match a {
        Command::Copy(x) => {
            lemma_copy_unique(x, b->Copy_0);
        },
        Command::Exec(x) => {
            lemma_exec_unique(x, b->Exec_0);
        },
    }
}

} // verus!
