//! Certificate pairs: which file in a certificate directory is a
//! certificate, and the name of its key file.
use vstd::prelude::*;
use crate::text::{chars_of, string_of, occurs_at, matches_at};

verus! {

/// Whether `s` ends with `suffix`.
pub open spec fn ends_with(s: Seq<char>, suffix: Seq<char>) -> bool {
    suffix.len() <= s.len() && occurs_at(s, suffix, s.len() - suffix.len())
}

/// `s` with every trailing repetition of `suffix` removed
/// (`str::trim_end_matches`).
pub open spec fn strip_suffixes(s: Seq<char>, suffix: Seq<char>) -> Seq<char>
    decreases s.len(),
{
    if suffix.len() > 0 && ends_with(s, suffix) {
        strip_suffixes(s.subrange(0, s.len() - suffix.len()), suffix)
    } else {
        s
    }
}

/// The key file that goes with a certificate file: a name ending in `.pem`
/// but not in `-key.pem` is a certificate, and its key is named by its stem
/// followed by `-key.pem`.
pub open spec fn key_file_for(file_name: Seq<char>) -> Option<Seq<char>> {
    if !ends_with(file_name, ".pem"@) || ends_with(file_name, "-key.pem"@) {
        None
    } else {
        Some(strip_suffixes(file_name, ".pem"@) + "-key.pem"@)
    }
}

fn ends_with_chars(s: &[char], suffix: &[char]) -> (b: bool)
    ensures
        b == ends_with(s@, suffix@),
{
    if suffix.len() > s.len() {
        false
    } else {
        matches_at(s, suffix, s.len() - suffix.len())
    }
}

/// The name of the key file of a certificate file; `None` when the file is
/// no certificate.
pub fn key_file_name(file_name: &str) -> (r: Option<String>)
    ensures
        match r {
            Some(k) => key_file_for(file_name@) == Some(k@),
            None => key_file_for(file_name@) is None,
        },
{
    let name = chars_of(file_name);
    let pem = chars_of(".pem");
    let key_suffix = chars_of("-key.pem");
    if !ends_with_chars(&name, &pem) || ends_with_chars(&name, &key_suffix) {
        return None;
    }
    proof {
        reveal_strlit(".pem");
        assert(name@.subrange(0, name@.len() as int) =~= name@);
    }
    let mut end = name.len();
    while end >= pem.len() && matches_at(&name, &pem, end - pem.len())
        invariant
            end <= name@.len(),
            pem@ == ".pem"@,
            pem@.len() == 4,
            strip_suffixes(name@, pem@) == strip_suffixes(name@.subrange(0, end as int), pem@),
        decreases end,
    {
        proof {
            let w = name@.subrange(0, end as int);
            assert(w.subrange(end - 4, end as int) =~= name@.subrange(end - 4, end as int));
            assert(w.subrange(0, end - 4) =~= name@.subrange(0, end - 4));
        }
        end = end - pem.len();
    }
    proof {
        let w = name@.subrange(0, end as int);
        if end >= 4 {
            assert(w.subrange(end - 4, end as int) =~= name@.subrange(end - 4, end as int));
        }
    }
    let mut out: Vec<char> = Vec::new();
    let mut i: usize = 0;
    while i < end
        invariant
            i <= end <= name@.len(),
            out@ == name@.subrange(0, i as int),
        decreases end - i,
    {
        out.push(name[i]);
        i = i + 1;
        assert(out@ =~= name@.subrange(0, i as int));
    }
    let mut k: usize = 0;
    let ghost stem = out@;
    while k < key_suffix.len()
        invariant
            k <= key_suffix@.len(),
            out@ == stem + key_suffix@.subrange(0, k as int),
        decreases key_suffix.len() - k,
    {
        out.push(key_suffix[k]);
        k = k + 1;
        assert(out@ =~= stem + key_suffix@.subrange(0, k as int));
    }
    assert(key_suffix@.subrange(0, k as int) =~= key_suffix@);
    Some(string_of(&out))
}

} // verus!
