//! Stamps: witnesses that a step was run on exactly these inputs.
//!
//! A stamp is the name of a marker file. The name holds a hash of what the
//! step was made from, so a changed step gets another file, and a tool that
//! compares modification times sees that the step has to run again.

use crate::dag::{ToFilePath, ToShellString};
use crate::shell::{lemma_shell_join_push, quote_token, shell_string, token_views};
use std::collections::hash_map::DefaultHasher;
use std::hash::Hasher;
use vstd::prelude::*;
use vstd::std_specs::hash::DefaultHasherAdditionalSpecFns;

verus! {

/// The hash of the bytes `payload`: what a fresh hasher of the standard
/// library answers once it was fed `payload` in one piece.
pub open spec fn digest(payload: Seq<u8>) -> u64 {
    DefaultHasher::spec_finish(seq![payload])
}

/// The sixteen hexadecimal digits, in order.
pub open spec fn hex_digits() -> Seq<char> {
    seq!['0', '1', '2', '3', '4', '5', '6', '7', '8', '9', 'a', 'b', 'c', 'd', 'e', 'f']
}

/// The hexadecimal digit number `i` of `hash`, counted from the left of its
/// sixteen digits.
pub open spec fn hex_digit(hash: u64, i: int) -> char {
    hex_digits()[((hash >> ((60 - 4 * i) as u64)) & 0xf) as int]
}

/// `hash` in sixteen lower-case hexadecimal digits, zeros in front.
pub open spec fn hex16(hash: u64) -> Seq<char> {
    Seq::new(16, |i: int| hex_digit(hash, i))
}

/// The file name of the stamp with this prefix and hash: the prefix, the
/// hash in sixteen hexadecimal digits, and `.stamp`.
pub open spec fn stamp_name(prefix: Seq<char>, hash: u64) -> Seq<char> {
    prefix + hex16(hash) + seq!['.', 's', 't', 'a', 'm', 'p']
}

/// The marker of one step.
#[derive(Debug)]
pub struct Stamp {
    prefix: String,
    hash: u64,
}

/// What a stamp holds.
pub ghost struct StampView {
    pub prefix: Seq<char>,
    pub hash: u64,
}

impl View for Stamp {
    type V = StampView;

    closed spec fn view(&self) -> StampView {
        StampView { prefix: self.prefix@, hash: self.hash }
    }
}

impl Clone for Stamp {
    fn clone(&self) -> (copy: Self)
        ensures
            copy@ == self@,
    {
        Stamp { prefix: self.prefix.clone(), hash: self.hash }
    }
}

impl Stamp {
    /// The stamp of `payload` under `prefix`. The hash depends on the bytes of
    /// `payload` and on nothing else.
    pub fn new(prefix: &str, payload: &[u8]) -> (stamp: Self)
        ensures
            stamp@ == (StampView { prefix: prefix@, hash: digest(payload@) }),
    {
        let mut hasher = DefaultHasher::new();
        hasher.write(payload);
        let hash = hasher.finish();
        assert(hasher@ =~= seq![payload@]);
        Stamp { prefix: prefix.to_owned(), hash }
    }
}

/// Stamps made from the same prefix and the same payload are the same, and
/// so are their file names.
pub proof fn lemma_stamp_deterministic(a: Stamp, b: Stamp, prefix: Seq<char>, payload: Seq<u8>)
    requires
        a@ == (StampView { prefix, hash: digest(payload) }),
        b@ == (StampView { prefix, hash: digest(payload) }),
    ensures
        a@ == b@,
        a.path_view() == b.path_view(),
{
}

/// The file name of a stamp is its prefix, sixteen characters, and `.stamp`.
pub proof fn lemma_stamp_name_shape(prefix: Seq<char>, hash: u64)
    ensures
        stamp_name(prefix, hash).len() == prefix.len() + 22,
        stamp_name(prefix, hash).take(prefix.len() as int) == prefix,
        stamp_name(prefix, hash).skip(prefix.len() as int + 16) == seq!['.', 's', 't', 'a', 'm', 'p'],
        forall|i: int|
            0 <= i < 16 ==> hex_digits().contains(
                #[trigger] stamp_name(prefix, hash)[prefix.len() + i],
            ),
{
    let name = stamp_name(prefix, hash);
    assert(name.take(prefix.len() as int) =~= prefix);
    assert(name.skip(prefix.len() as int + 16) =~= seq!['.', 's', 't', 'a', 'm', 'p']);
    assert forall|i: int| 0 <= i < 16 implies hex_digits().contains(
        #[trigger] name[prefix.len() + i],
    ) by {
        let d = (hash >> ((60 - 4 * i) as u64)) & 0xf;
        let shift = (60 - 4 * i) as u64;
        assert(d < 16) by (bit_vector)
            requires
                d == (hash >> shift) & 0xf,
        ;
        assert(name[prefix.len() + i] == hex_digits()[d as int]);
    }
}

/// Appends to `out` the sixteen hexadecimal digits of `hash`.
fn push_hex16(out: &mut String, hash: u64)
    ensures
        final(out)@ == old(out)@ + hex16(hash),
{
    let digits = "0123456789abcdef";
    proof {
        reveal_strlit("0123456789abcdef");
        assert(digits@ =~= hex_digits());
    }
    let mut i: usize = 0;
    while i < 16
        invariant
            i <= 16,
            digits@ == hex_digits(),
            out@ == old(out)@ + hex16(hash).take(i as int),
        decreases 16 - i,
    {
        let shift: u64 = (60 - 4 * i) as u64;
        let d: u64 = (hash >> shift) & 0xf;
        assert(d < 16) by (bit_vector)
            requires
                d == (hash >> shift) & 0xf,
        ;
        let at = d as usize;
        out.append(digits.substring_char(at, at + 1));
        proof {
            assert(digits@.subrange(at as int, at + 1) =~= seq![hex_digit(hash, i as int)]);
            assert(hex16(hash).take(i + 1) =~= hex16(hash).take(i as int).push(
                hex_digit(hash, i as int),
            ));
        }
        i = i + 1;
    }
    assert(hex16(hash).take(16) =~= hex16(hash));
}

impl ToFilePath for Stamp {
    open spec fn path_view(&self) -> Seq<char> {
        stamp_name(self@.prefix, self@.hash)
    }

    /// The file name of this stamp.
    fn to_file_path(&self) -> (s: String) {
        let mut s = self.prefix.clone();
        push_hex16(&mut s, self.hash);
        s.append(".stamp");
        proof {
            reveal_strlit(".stamp");
            assert(s@ =~= stamp_name(self@.prefix, self@.hash));
        }
        s
    }
}

/// An action together with the stamp that witnesses it.
pub struct Stamper<T> {
    inner: T,
    stamp: Stamp,
}

/// What a stamper holds.
pub ghost struct StamperView<T> {
    pub inner: T,
    pub stamp: StampView,
}

impl<T> View for Stamper<T> {
    type V = StamperView<T>;

    closed spec fn view(&self) -> StamperView<T> {
        StamperView { inner: self.inner, stamp: self.stamp@ }
    }
}

impl<T> Stamper<T> {
    /// Pairs the action `inner` with `stamp`.
    pub fn new(inner: T, stamp: Stamp) -> (stamper: Self)
        ensures
            stamper@ == (StamperView { inner, stamp: stamp@ }),
    {
        Stamper { inner, stamp }
    }
}

/// The command of a stamped action: the action's own command, and after it,
/// run only if the action succeeded, a `touch` of the stamp file.
pub open spec fn stamped_command(inner: Seq<char>, stamp: StampView) -> Seq<char> {
    inner + seq![' ', '&', '&', ' ', 't', 'o', 'u', 'c', 'h', ' '] + quote_token(
        stamp_name(stamp.prefix, stamp.hash),
    )
}

impl<T: ToShellString> ToShellString for Stamper<T> {
    open spec fn shell_view(&self) -> Seq<char> {
        stamped_command(self@.inner.shell_view(), self@.stamp)
    }

    /// The action's command followed by the touch of its stamp.
    fn to_shell_string(&self) -> (s: String) {
        let mut s = self.inner.to_shell_string();
        let path = self.stamp.to_file_path();
        let mut args: Vec<&str> = Vec::new();
        args.push("touch");
        args.push(path.as_str());
        let touch = shell_string(args.as_slice());
        s.append(" && ");
        s.append(touch.as_str());
        proof {
            reveal_strlit(" && ");
            reveal_strlit("touch");
            assert(token_views(args@) =~= Seq::empty().push("touch"@).push(path@));
            lemma_shell_join_push(Seq::empty(), "touch"@);
            lemma_shell_join_push(Seq::empty().push("touch"@), path@);
            assert(touch@ =~= "touch"@ + seq![' '] + quote_token(path@));
            assert(s@ =~= stamped_command(self@.inner.shell_view(), self@.stamp));
        }
        s
    }
}

} // verus!
