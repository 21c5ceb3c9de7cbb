//! Reducing a received filename to a safe name inside the store. Only the
//! final path component of what the sender transmitted is honored — a
//! directory portion, a parent-directory segment, or an empty name is never
//! allowed to steer where the file lands.

use vstd::prelude::*;

verus! {

/// The path separator byte (`/`).
pub const SEPARATOR: u8 = 47;

/// The ASCII dot byte (`.`).
pub const DOT: u8 = 46;

/// `s` without its trailing separator bytes.
pub open spec fn drop_trailing_separators(s: Seq<u8>) -> Seq<u8>
    decreases s.len(),
{
    if s.len() > 0 && s.last() == SEPARATOR {
        drop_trailing_separators(s.drop_last())
    } else {
        s
    }
}

/// The suffix of `s` after its last separator byte.
pub open spec fn suffix_after_separator(s: Seq<u8>) -> Seq<u8>
    decreases s.len(),
{
    if s.len() == 0 {
        s
    } else if s.last() == SEPARATOR {
        Seq::empty()
    } else {
        suffix_after_separator(s.drop_last()).push(s.last())
    }
}

/// The final path component of a transmitted filename: what remains after its
/// trailing separators are dropped and everything up to and including its
/// last separator is discarded.
pub open spec fn final_component(name: Seq<u8>) -> Seq<u8> {
    suffix_after_separator(drop_trailing_separators(name))
}

/// Whether a component may name a stored file: not empty, not the current
/// directory, not the parent directory.
pub open spec fn usable_component(t: Seq<u8>) -> bool {
    t.len() > 0 && t != seq![DOT] && t != seq![DOT, DOT]
}

/// Dropping trailing separators yields `s.take(e)` when everything from `e`
/// on is a separator and nothing at `e - 1` is.
proof fn lemma_drop_trailing(s: Seq<u8>, e: int)
    requires
        0 <= e <= s.len(),
        forall|j: int| e <= j < s.len() ==> s[j] == SEPARATOR,
        e > 0 ==> s[e - 1] != SEPARATOR,
    ensures
        drop_trailing_separators(s) == s.take(e),
    decreases s.len(),
{
    if s.len() == 0 {
        assert(s.take(e) =~= s);
    } else if s.last() == SEPARATOR {
        assert(e < s.len());
        let t = s.drop_last();
        assert(t =~= s.take(s.len() - 1));
        lemma_drop_trailing(t, e);
        assert(t.take(e) =~= s.take(e));
    } else {
        assert(e == s.len());
        assert(s.take(e) =~= s);
    }
}

/// The suffix after the last separator is `t.subrange(k, t.len())` when
/// nothing from `k` on is a separator and `t[k - 1]` is one.
proof fn lemma_suffix_after(t: Seq<u8>, k: int)
    requires
        0 <= k <= t.len(),
        forall|j: int| k <= j < t.len() ==> t[j] != SEPARATOR,
        k > 0 ==> t[k - 1] == SEPARATOR,
    ensures
        suffix_after_separator(t) == t.subrange(k, t.len() as int),
    decreases t.len(),
{
    if t.len() == 0 {
        assert(t.subrange(0, 0) =~= t);
    } else if t.last() == SEPARATOR {
        assert(k == t.len());
        assert(t.subrange(k, t.len() as int) =~= Seq::<u8>::empty());
    } else {
        assert(k < t.len());
        let u = t.drop_last();
        assert(u =~= t.take(t.len() - 1));
        lemma_suffix_after(u, k);
        assert(u.subrange(k, u.len() as int).push(t.last()) =~= t.subrange(k, t.len() as int));
    }
}

/// The suffix after the last separator never holds a separator.
proof fn lemma_suffix_has_no_separator(s: Seq<u8>)
    ensures
        forall|i: int| #![trigger suffix_after_separator(s)[i]]
            0 <= i < suffix_after_separator(s).len() ==> suffix_after_separator(s)[i] != SEPARATOR,
    decreases s.len(),
{
    if s.len() == 0 {
    } else if s.last() == SEPARATOR {
    } else {
        lemma_suffix_has_no_separator(s.drop_last());
        let sub = suffix_after_separator(s.drop_last());
        assert forall|i: int| #![trigger suffix_after_separator(s)[i]]
            0 <= i < suffix_after_separator(s).len() implies suffix_after_separator(s)[i]
            != SEPARATOR by {
            if i < sub.len() {
                assert(suffix_after_separator(s)[i] == sub[i]);
            } else {
                assert(suffix_after_separator(s)[i] == s.last());
            }
        }
    }
}

/// Path-traversal defense: the final component of any transmitted filename
/// holds no path separator, so a stored file can never name a directory, and
/// the unusable components (empty, the current directory, the parent
/// directory) are exactly what `usable_component` refuses.
pub proof fn lemma_component_has_no_separator(name: Seq<u8>)
    ensures
        forall|i: int| #![trigger final_component(name)[i]]
            0 <= i < final_component(name).len() ==> final_component(name)[i] != SEPARATOR,
{
    lemma_suffix_has_no_separator(drop_trailing_separators(name));
}

/// The final path component of `name`, as bytes.
pub fn final_component_bytes(name: &[u8]) -> (r: Vec<u8>)
    ensures
        r@ == final_component(name@),
{
    let mut e: usize = name.len();
    while e > 0 && name[e - 1] == SEPARATOR
        invariant
            e <= name@.len(),
            forall|j: int| e <= j < name@.len() ==> name@[j] == SEPARATOR,
        decreases e,
    {
        e -= 1;
    }
    proof {
        lemma_drop_trailing(name@, e as int);
    }
    let mut k: usize = e;
    while k > 0 && name[k - 1] != SEPARATOR
        invariant
            k <= e <= name@.len(),
            forall|j: int| k <= j < e ==> name@[j] != SEPARATOR,
        decreases k,
    {
        k -= 1;
    }
    proof {
        lemma_suffix_after(name@.take(e as int), k as int);
    }
    let mut r: Vec<u8> = Vec::new();
    let mut i: usize = k;
    while i < e
        invariant
            k <= i <= e <= name@.len(),
            r@ == name@.subrange(k as int, i as int),
        decreases e - i,
    {
        r.push(name[i]);
        proof {
            assert(name@.subrange(k as int, i + 1) =~= name@.subrange(k as int, i as int).push(
                name@[i as int],
            ));
        }
        i += 1;
    }
    proof {
        assert(name@.take(e as int).subrange(k as int, e as int) =~= name@.subrange(
            k as int,
            e as int,
        ));
    }
    r
}

/// Whether `t` may name a stored file.
pub fn is_usable_component(t: &[u8]) -> (r: bool)
    ensures
        r == usable_component(t@),
{
    if t.len() == 0 {
        return false;
    }
    if t.len() == 1 && t[0] == DOT {
        proof {
            assert(t@ =~= seq![DOT]);
        }
        return false;
    }
    if t.len() == 2 && t[0] == DOT && t[1] == DOT {
        proof {
            assert(t@ =~= seq![DOT, DOT]);
        }
        return false;
    }
    proof {
        if t@ == seq![DOT] {
            assert(t@.len() == 1 && t@[0] == DOT);
        }
        if t@ == seq![DOT, DOT] {
            assert(t@.len() == 2 && t@[0] == DOT && t@[1] == DOT);
        }
    }
    true
}

/// What `String::from_utf8_lossy` yields on the given bytes.
pub uninterp spec fn lossy_of(bytes: Seq<u8>) -> Seq<char>;

/// Relies on `String::from_utf8_lossy`: the decoding depends on the bytes
/// alone; valid UTF-8 decodes to exactly its own text and invalid sequences
/// become replacement characters.
#[verifier::external_body]
fn lossy_string(bytes: &[u8]) -> (r: String)
    ensures
        r@ == lossy_of(bytes@),
        bytes@.len() == 0 ==> r@.len() == 0,
{
    String::from_utf8_lossy(bytes).into_owned()
}

/// The text a received file is stored under: the final path component of the
/// transmitted name decoded as text, or the fallback name when that component
/// cannot name a file.
pub open spec fn stored_name_spec(name: Seq<u8>) -> Seq<char> {
    if usable_component(final_component(name)) {
        lossy_of(final_component(name))
    } else {
        "unknown_file"@
    }
}

/// The name under which a received file is stored.
pub fn stored_file_name(name: &[u8]) -> (r: String)
    ensures
        r@ == stored_name_spec(name@),
{
    let component = final_component_bytes(name);
    if is_usable_component(component.as_slice()) {
        lossy_string(component.as_slice())
    } else {
        "unknown_file".to_owned()
    }
}

} // verus!
