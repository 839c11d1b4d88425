//! Sanitizing of filename-style identifiers passed across the engine
//! boundary: the characters `|`, `\`, `:` and `/` are stripped before a
//! name may be used in a derived file path.

use vstd::prelude::*;
use vstd::std_specs::iter::IteratorSpec;

verus! {

/// Characters that survive sanitizing.
pub open spec fn allowed_char(c: char) -> bool {
    c != '|' && c != '\\' && c != ':' && c != '/'
}

/// What sanitizing leaves of a character sequence: the allowed
/// characters, in order.
pub open spec fn strip_banned(s: Seq<char>) -> Seq<char> {
    s.filter(|c: char| allowed_char(c))
}

proof fn lemma_strip_banned_step(s: Seq<char>, i: int)
    requires
        0 <= i < s.len(),
    ensures
        strip_banned(s.take(i + 1)) == if allowed_char(s[i]) {
            strip_banned(s.take(i)).push(s[i])
        } else {
            strip_banned(s.take(i))
        },
{
    reveal(Seq::filter);
    assert(s.take(i + 1).drop_last() =~= s.take(i));
    assert(s.take(i + 1).last() == s[i]);
}

/// Relies on `FromIterator for String` (`collect`): the characters of
/// the iterator, in order, form the string.
#[verifier::external_body]
fn chars_to_string(v: &Vec<char>) -> (r: String)
    ensures
        r@ == v@,
{
    v.iter().collect()
}

/// Strips the characters `|`, `\`, `:` and `/` from a filename-style
/// identifier, keeping everything else in order.
pub fn normalized(filename: &str) -> (r: String)
    ensures
        r@ == strip_banned(filename@),
{
    let mut kept: Vec<char> = Vec::new();
    let mut it = filename.chars();
    let ghost all: Seq<char> = filename@;
    let ghost mut done: int = 0;
    proof {
        broadcast use vstd::string::axiom_spec_iter;
        broadcast use vstd::string::next_postcondition;

        assert(it.remaining() =~= all);
    }
    loop
        invariant
            0 <= done <= all.len(),
            it.remaining() =~= all.skip(done),
            kept@ == strip_banned(all.take(done)),
        ensures
            done == all.len(),
        decreases all.len() - done,
    {
        let c_opt = it.next();
        match c_opt {
            Some(c) => {
                proof {
                    assert(all.skip(done)[0] == all[done]);
                    assert(all.skip(done).drop_first() =~= all.skip(done + 1));
                    lemma_strip_banned_step(all, done);
                }
                if !(c == '|' || c == '\\' || c == ':' || c == '/') {
                    kept.push(c);
                }
                proof {
                    done = done + 1;
                }
            },
            None => {
                proof {
                    assert(all.skip(done).len() == 0);
                    assert(done == all.len());
                    assert(all.take(done) =~= all);
                }
                break ;
            },
        }
    }
    proof {
        assert(all.take(done) =~= all);
    }
    chars_to_string(&kept)
}

} // verus!
