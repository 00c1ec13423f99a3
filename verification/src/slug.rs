//! Deriving a filesystem-safe slug from a note title.

use vstd::prelude::*;

use crate::text::{ascii_to_string, chars_of_bytes, lemma_chars_of_bytes_push, unicode_whitespace};

verus! {

/// ASCII letters and digits, the characters a slug keeps.
pub open spec fn is_ascii_alnum(c: char) -> bool {
    ('0' <= c && c <= '9') || ('a' <= c && c <= 'z') || ('A' <= c && c <= 'Z')
}

/// An ASCII upper-case letter folded to lower case; other characters stay.
pub open spec fn lower_ascii_char(c: char) -> char {
    if 'A' <= c && c <= 'Z' {
        ((c as u32 + 32) as u8) as char
    } else {
        c
    }
}

/// One step of slug building: keep letters and digits lower-cased, collapse
/// whitespace, hyphen and underscore runs to one hyphen, drop the rest.
pub open spec fn slug_step(acc: Seq<char>, c: char) -> Seq<char> {
    if is_ascii_alnum(c) {
        acc.push(lower_ascii_char(c))
    } else if unicode_whitespace(c) || c == '-' || c == '_' {
        if acc.len() > 0 && acc.last() == '-' {
            acc
        } else {
            acc.push('-')
        }
    } else {
        acc
    }
}

/// The slug characters accumulated over a whole title.
pub open spec fn slug_fold(s: Seq<char>) -> Seq<char>
    decreases s.len(),
{
    if s.len() == 0 {
        Seq::empty()
    } else {
        slug_step(slug_fold(s.drop_last()), s.last())
    }
}

/// What `slugify` returns: the folded characters, with one trailing hyphen
/// removed, and the fallback name when nothing remains.
pub open spec fn spec_slugify(s: Seq<char>) -> Seq<char> {
    let raw = slug_fold(s);
    let t = if raw.len() > 0 && raw.last() == '-' {
        raw.drop_last()
    } else {
        raw
    };
    if t.len() == 0 {
        "note"@
    } else {
        t
    }
}

/// Every character a slug fold produces is a lower-case ASCII letter, a
/// digit, or a hyphen.
pub open spec fn slug_char(c: char) -> bool {
    ('0' <= c && c <= '9') || ('a' <= c && c <= 'z') || c == '-'
}

pub proof fn lemma_slug_fold_chars(s: Seq<char>)
    ensures
        forall|i: int| 0 <= i < slug_fold(s).len() ==> slug_char(#[trigger] slug_fold(s)[i]),
    decreases s.len(),
{
    if s.len() > 0 {
        lemma_slug_fold_chars(s.drop_last());
        let acc = slug_fold(s.drop_last());
        let c = s.last();
        if is_ascii_alnum(c) {
            assert(slug_char(lower_ascii_char(c)));
            assert(slug_fold(s) == acc.push(lower_ascii_char(c)));
        }
    }
}

/// A slug is never empty and is filesystem-safe: every character is a
/// lower-case ASCII letter, a digit, or a hyphen.
pub proof fn lemma_slugify_safe(s: Seq<char>)
    ensures
        spec_slugify(s).len() > 0,
        forall|i: int| 0 <= i < spec_slugify(s).len() ==> slug_char(#[trigger] spec_slugify(s)[i]),
{
    lemma_slug_fold_chars(s);
    let raw = slug_fold(s);
    let t = if raw.len() > 0 && raw.last() == '-' {
        raw.drop_last()
    } else {
        raw
    };
    assert(forall|i: int| 0 <= i < t.len() ==> t[i] == raw[i]);
    if t.len() == 0 {
        reveal_strlit("note");
        assert("note"@.len() == 4);
        assert forall|i: int| 0 <= i < "note"@.len() implies slug_char(#[trigger] "note"@[i]) by {
            assert("note"@[0] == 'n' && "note"@[1] == 'o' && "note"@[2] == 't' && "note"@[3]
                == 'e');
        }
    }
}

/// Derives the slug for a title: lower-cased ASCII letters and digits, with
/// separator runs collapsed to single hyphens, a trailing hyphen dropped,
/// and `"note"` when nothing is left.
#[verifier::loop_isolation(false)]
pub fn slugify(input: &str) -> (r: String)
    ensures
        r@ == spec_slugify(input@),
{
    let n = input.unicode_len();
    let mut v: Vec<u8> = Vec::new();
    let mut i: usize = 0;
    proof {
        assert(input@.take(0) =~= Seq::<char>::empty());
        assert(chars_of_bytes(v@) =~= slug_fold(input@.take(0)));
    }
    while i < n
        invariant
            0 <= i <= n,
            chars_of_bytes(v@) == slug_fold(input@.take(i as int)),
            forall|k: int| 0 <= k < v@.len() ==> v@[k] < 128,
        decreases n - i,
    {
        let c = input.get_char(i);
        let ghost prefix = input@.take(i as int);
        let ghost acc = slug_fold(prefix);
        proof {
            assert(input@.take(i + 1).drop_last() =~= prefix);
            assert(input@.take(i + 1).last() == c);
            assert(slug_fold(input@.take(i + 1)) == slug_step(acc, c));
        }
        let x = c as u32;
        if (48 <= x && x <= 57) || (97 <= x && x <= 122) {
            let ghost pre = v@;
            v.push(x as u8);
            proof {
                lemma_chars_of_bytes_push(pre, (x as u8));
                assert((x as u8) as char == lower_ascii_char(c));
                assert(chars_of_bytes(v@) =~= acc.push(lower_ascii_char(c)));
            }
        } else if 65 <= x && x <= 90 {
            let ghost pre = v@;
            v.push((x + 32) as u8);
            proof {
                lemma_chars_of_bytes_push(pre, ((x + 32) as u8));
                assert(((x + 32) as u8) as char == lower_ascii_char(c));
                assert(chars_of_bytes(v@) =~= acc.push(lower_ascii_char(c)));
            }
        } else if c.is_whitespace() || c == '-' || c == '_' {
            let len = v.len();
            if len > 0 && v[len - 1] == 45 {
                proof {
                    assert(acc.last() == v@[len - 1] as char);
                    assert(acc.last() == '-');
                    assert(slug_step(acc, c) == acc);
                }
            } else {
                let ghost pre = v@;
                v.push(45);
                proof {
                    if pre.len() > 0 {
                        assert(acc.last() == pre[pre.len() - 1] as char);
                        assert(acc.last() != '-');
                    }
                    lemma_chars_of_bytes_push(pre, 45);
                    assert(45u8 as char == '-');
                    assert(chars_of_bytes(v@) =~= acc.push('-'));
                }
            }
        } else {
            proof {
                assert(slug_step(acc, c) == acc);
            }
        }
        i = i + 1;
    }
    proof {
        assert(input@.take(n as int) =~= input@);
    }
    let len = v.len();
    if len > 0 && v[len - 1] == 45 {
        let ghost pre = v@;
        let _ = v.pop();
        proof {
            let raw = slug_fold(input@);
            assert(raw.last() == pre[pre.len() - 1] as char);
            assert(raw.last() == '-');
            assert(chars_of_bytes(v@) =~= raw.drop_last());
        }
    } else {
        proof {
            let raw = slug_fold(input@);
            if raw.len() > 0 {
                assert(raw.last() == v@[v@.len() - 1] as char);
                assert(raw.last() != '-');
            }
        }
    }
    if v.len() == 0 {
        String::from_str("note")
    } else {
        ascii_to_string(v)
    }
}

} // verus!
