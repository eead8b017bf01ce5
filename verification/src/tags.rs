//! Case-insensitive lookup in a container's or a stream's metadata tags.
use vstd::prelude::*;
use crate::text::{chars_of, lower_seq, lower_chars, matches_at};

verus! {

/// One metadata tag: its key, and its value where the value is text.
pub struct TagEntry {
    pub key: String,
    pub text: Option<String>,
}

/// Key and text of each tag.
pub open spec fn entries_view(v: Seq<TagEntry>) -> Seq<(Seq<char>, Option<Seq<char>>)> {
    Seq::new(v.len(), |i: int| (v[i].key@, v[i].text.deep_view()))
}

/// The characters of each key searched for.
pub open spec fn keys_view(keys: Seq<&str>) -> Seq<Seq<char>> {
    Seq::new(keys.len(), |i: int| keys[i]@)
}

/// `key` equals one of `keys`, ignoring ASCII case.
pub open spec fn key_matches(key: Seq<char>, keys: Seq<Seq<char>>) -> bool {
    exists|j: int| 0 <= j < keys.len() && lower_seq(key) == lower_seq(#[trigger] keys[j])
}

/// The text of the first tag, in the given order, whose key matches one of
/// `keys` ignoring ASCII case and whose value is text.
pub open spec fn get_ci_spec(
    entries: Seq<(Seq<char>, Option<Seq<char>>)>,
    keys: Seq<Seq<char>>,
) -> Option<Seq<char>>
    decreases entries.len(),
{
    if entries.len() == 0 {
        None
    } else if key_matches(entries[0].0, keys) && entries[0].1 is Some {
        entries[0].1
    } else {
        get_ci_spec(entries.skip(1), keys)
    }
}

/// Whether `key` equals one of `keys`, ignoring ASCII case.
fn key_in(key: &str, keys: &[&str]) -> (b: bool)
    ensures
        b == key_matches(key@, keys_view(keys@)),
{
    let kl = lower_chars(&chars_of(key));
    let mut j: usize = 0;
    while j < keys.len()
        invariant
            kl@ == lower_seq(key@),
            j <= keys@.len(),
            forall|t: int| 0 <= t < j ==> lower_seq(key@) != lower_seq(#[trigger] keys_view(keys@)[t]),
        decreases keys.len() - j,
    {
        let tl = lower_chars(&chars_of(keys[j]));
        if kl.len() == tl.len() && matches_at(&kl, 0, &tl) {
            assert(kl@.subrange(0, tl@.len() as int) =~= kl@);
            assert(keys_view(keys@)[j as int] == keys@[j as int]@);
            return true;
        }
        proof {
            if kl@.len() == tl@.len() {
                assert(kl@.subrange(0, tl@.len() as int) =~= kl@);
            }
        }
        j = j + 1;
    }
    false
}

/// Searches the tags case-insensitively for any of `keys`; the first tag
/// whose key matches and whose value is text gives the result.
pub fn get_ci(obj: Option<&Vec<TagEntry>>, keys: &[&str]) -> (r: Option<String>)
    ensures
        r.deep_view() == match obj {
            None => None,
            Some(v) => get_ci_spec(entries_view(v@), keys_view(keys@)),
        },
{
    let v = match obj {
        Some(v) => v,
        None => return None,
    };
    let ghost ev = entries_view(v@);
    let mut i: usize = 0;
    assert(ev.skip(0) =~= ev);
    while i < v.len()
        invariant
            obj == Some(v),
            ev == entries_view(v@),
            i <= v@.len(),
            get_ci_spec(ev, keys_view(keys@)) == get_ci_spec(ev.skip(i as int), keys_view(keys@)),
        decreases v.len() - i,
    {
        let e = &v[i];
        assert(ev.skip(i as int)[0] == ev[i as int]);
        assert(ev.skip(i as int).skip(1) =~= ev.skip(i + 1));
        if key_in(e.key.as_str(), keys) {
            match &e.text {
                Some(s) => {
                    let r = s.clone();
                    assert(ev[i as int].1 == Some(s@));
                    assert(ev[i as int].0 == e.key@);
                    return Some(r);
                },
                None => {},
            }
        }
        i = i + 1;
    }
    assert(ev.skip(i as int) =~= Seq::<(Seq<char>, Option<Seq<char>>)>::empty());
    None
}

/// Keys are matched case-insensitively: key lists equal up to ASCII case
/// find the same tag.
pub proof fn lemma_get_ci_case_insensitive(
    entries: Seq<(Seq<char>, Option<Seq<char>>)>,
    k1: Seq<Seq<char>>,
    k2: Seq<Seq<char>>,
)
    requires
        k1.len() == k2.len(),
        forall|j: int| 0 <= j < k1.len() ==> lower_seq(#[trigger] k1[j]) == lower_seq(k2[j]),
    ensures
        get_ci_spec(entries, k1) == get_ci_spec(entries, k2),
    decreases entries.len(),
{
    if entries.len() > 0 {
        let key = entries[0].0;
        if key_matches(key, k1) {
            let j = choose|j: int| 0 <= j < k1.len() && lower_seq(key) == lower_seq(#[trigger] k1[j]);
            assert(lower_seq(key) == lower_seq(k2[j]));
        }
        if key_matches(key, k2) {
            let j = choose|j: int| 0 <= j < k2.len() && lower_seq(key) == lower_seq(#[trigger] k2[j]);
            assert(lower_seq(key) == lower_seq(k1[j]));
        }
        lemma_get_ci_case_insensitive(entries.skip(1), k1, k2);
    }
}

} // verus!
