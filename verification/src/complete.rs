//! Command-word completion.
//!
//! The interactive front end completes over the fixed command vocabulary.
//! The computation — which vocabulary words the typed prefix starts, and
//! what remains of each — is pure, and lives here with its contract; how the
//! candidates are displayed is the front end's business.

use vstd::prelude::*;
use vstd::string::StrSliceExecFns;

use crate::metric::strs_view;

verus! {

/// The command vocabulary offered to the operator; the commands that take
/// arguments carry their trailing space.
pub open spec fn vocab() -> Seq<Seq<char>> {
    seq!["set "@, "del "@, "get "@, "help"@, "quit"@, "exit"@]
}

/// Does `w` start with `p`?
pub open spec fn is_prefix(p: Seq<char>, w: Seq<char>) -> bool {
    p.len() <= w.len() && w.subrange(0, p.len() as int) == p
}

/// The completions of `key` over a word list: one candidate per word that
/// `key` starts, in the list's order, each the word's characters after
/// `key`.
pub open spec fn completions_spec(key: Seq<char>, words: Seq<Seq<char>>) -> Seq<Seq<char>>
    decreases words.len(),
{
    if words.len() == 0 {
        Seq::empty()
    } else {
        let rest = completions_spec(key, words.drop_last());
        if is_prefix(key, words.last()) {
            rest.push(words.last().subrange(key.len() as int, words.last().len() as int))
        } else {
            rest
        }
    }
}

fn is_prefix_exec(p: &str, w: &str) -> (r: bool)
    ensures
        r == is_prefix(p@, w@),
{
    let np = p.unicode_len();
    let nw = w.unicode_len();
    if np > nw {
        return false;
    }
    let mut i: usize = 0;
    while i < np
        invariant
            i <= np,
            np == p@.len(),
            nw == w@.len(),
            np <= nw,
            forall|j: int| 0 <= j < i ==> p@[j] == w@[j],
        decreases np - i,
    {
        if p.get_char(i) != w.get_char(i) {
            proof {
                assert(is_prefix(p@, w@) ==> w@.subrange(0, p@.len() as int)[i as int] == p@[i as int]);
            }
            return false;
        }
        i = i + 1;
    }
    proof {
        assert(w@.subrange(0, p@.len() as int) =~= p@);
    }
    true
}

/// The completions of `key` over the command vocabulary: exactly one
/// candidate per vocabulary word that `key` starts, in vocabulary order,
/// each the word's remaining characters. An empty key starts every word, so
/// it is offered the whole vocabulary.
pub fn completions_for(key: &str) -> (r: Vec<String>)
    ensures
        strs_view(r@) == completions_spec(key@, vocab()),
{
    let mut words: Vec<&str> = Vec::new();
    words.push("set ");
    words.push("del ");
    words.push("get ");
    words.push("help");
    words.push("quit");
    words.push("exit");
    proof {
        assert(forall|k: int| 0 <= k < 6 ==> (#[trigger] words@[k])@ == vocab()[k]);
    }
    let klen = key.unicode_len();
    let mut out: Vec<String> = Vec::new();
    let mut i: usize = 0;
    while i < words.len()
        invariant
            i <= words@.len(),
            words@.len() == vocab().len(),
            klen == key@.len(),
            forall|k: int| 0 <= k < words@.len() ==> (#[trigger] words@[k])@ == vocab()[k],
            strs_view(out@) =~= completions_spec(key@, vocab().take(i as int)),
        decreases words.len() - i,
    {
        proof {
            assert(vocab().take(i as int + 1).drop_last() =~= vocab().take(i as int));
            assert(vocab().take(i as int + 1).last() == vocab()[i as int]);
        }
        let w = words[i];
        if is_prefix_exec(key, w) {
            let wlen = w.unicode_len();
            let suffix = w.substring_char(klen, wlen).to_owned();
            let ghost prev = out@;
            out.push(suffix);
            proof {
                assert(out@ == prev.push(out@.last()));
                assert(out@.last()@ == vocab()[i as int].subrange(
                    key@.len() as int,
                    vocab()[i as int].len() as int,
                ));
                assert(strs_view(out@) =~= strs_view(prev).push(out@.last()@));
                assert(strs_view(out@) =~= completions_spec(key@, vocab().take(i as int + 1)));
            }
        } else {
            proof {
                assert(strs_view(out@) =~= completions_spec(key@, vocab().take(i as int + 1)));
            }
        }
        i = i + 1;
    }
    proof {
        assert(vocab().take(vocab().len() as int) =~= vocab());
    }
    out
}

} // verus!
