//! What the runtime's static archive needs when it is linked: rustc reports the
//! native libraries as one line of linker arguments, separated by whitespace, when the
//! archive is built.

use vstd::prelude::*;

use crate::text::{is_white_space, is_white_space_exec, strings_view};

verus! {

/// The words of `s`, left to right: the maximal runs of characters that are not
/// whitespace. `done` are the words before `s`; `cur` the part of a word that `s`
/// continues.
pub open spec fn words_from(done: Seq<Seq<char>>, cur: Seq<char>, s: Seq<char>) -> Seq<Seq<char>>
    decreases s.len(),
{
    if s.len() == 0 {
        if cur.len() == 0 {
            done
        } else {
            done.push(cur)
        }
    } else if is_white_space(s[0]) {
        if cur.len() == 0 {
            words_from(done, cur, s.skip(1))
        } else {
            words_from(done.push(cur), Seq::empty(), s.skip(1))
        }
    } else {
        words_from(done, cur.push(s[0]), s.skip(1))
    }
}

/// The whitespace-separated words of `s`, as `str::split_whitespace` yields them.
pub open spec fn spec_words(s: Seq<char>) -> Seq<Seq<char>> {
    words_from(Seq::empty(), Seq::empty(), s)
}

/// `s` holds no whitespace.
pub open spec fn no_white_space(s: Seq<char>) -> bool {
    forall|k: int| 0 <= k < s.len() ==> !is_white_space(#[trigger] s[k])
}

/// `s` is all whitespace.
pub open spec fn all_white_space(s: Seq<char>) -> bool {
    forall|k: int| 0 <= k < s.len() ==> is_white_space(#[trigger] s[k])
}

/// The words already found stay in front.
proof fn lemma_words_from_done(done: Seq<Seq<char>>, cur: Seq<char>, s: Seq<char>)
    ensures
        words_from(done, cur, s) == done + words_from(Seq::empty(), cur, s),
    decreases s.len(),
{
    if s.len() == 0 {
        if cur.len() == 0 {
            assert(done + Seq::<Seq<char>>::empty() =~= done);
        } else {
            assert(done.push(cur) =~= done + Seq::<Seq<char>>::empty().push(cur));
        }
    } else if is_white_space(s[0]) {
        if cur.len() == 0 {
            lemma_words_from_done(done, cur, s.skip(1));
        } else {
            lemma_words_from_done(done.push(cur), Seq::empty(), s.skip(1));
            lemma_words_from_done(seq![cur], Seq::empty(), s.skip(1));
            assert(Seq::<Seq<char>>::empty().push(cur) =~= seq![cur]);
            assert(done.push(cur) + words_from(Seq::empty(), Seq::empty(), s.skip(1)) =~= done + (
            seq![cur] + words_from(Seq::empty(), Seq::empty(), s.skip(1))));
        }
    } else {
        lemma_words_from_done(done, cur.push(s[0]), s.skip(1));
        lemma_words_from_done(Seq::empty(), cur.push(s[0]), s.skip(1));
    }
}

/// A stretch without whitespace continues the current word.
proof fn lemma_words_from_no_white_space(done: Seq<Seq<char>>, cur: Seq<char>, s: Seq<char>)
    requires
        no_white_space(s),
    ensures
        words_from(done, cur, s) == if (cur + s).len() == 0 {
            done
        } else {
            done.push(cur + s)
        },
    decreases s.len(),
{
    if s.len() == 0 {
        assert(cur + s =~= cur);
    } else {
        assert(!is_white_space(s[0]));
        assert(no_white_space(s.skip(1))) by {
            assert forall|k: int| 0 <= k < s.skip(1).len() implies !is_white_space(
                #[trigger] s.skip(1)[k],
            ) by {
                assert(s.skip(1)[k] == s[k + 1]);
            }
        }
        lemma_words_from_no_white_space(done, cur.push(s[0]), s.skip(1));
        assert(cur.push(s[0]) + s.skip(1) =~= cur + s);
    }
}

/// A stretch of whitespace after a finished word adds nothing.
proof fn lemma_words_from_all_white_space(done: Seq<Seq<char>>, s: Seq<char>)
    requires
        all_white_space(s),
    ensures
        words_from(done, Seq::empty(), s) == done,
    decreases s.len(),
{
    if s.len() > 0 {
        assert(is_white_space(s[0]));
        assert(all_white_space(s.skip(1))) by {
            assert forall|k: int| 0 <= k < s.skip(1).len() implies is_white_space(
                #[trigger] s.skip(1)[k],
            ) by {
                assert(s.skip(1)[k] == s[k + 1]);
            }
        }
        lemma_words_from_all_white_space(done, s.skip(1));
    }
}

/// A whitespace character ends the word before it.
proof fn lemma_words_from_split(
    done: Seq<Seq<char>>,
    cur: Seq<char>,
    a: Seq<char>,
    w: char,
    b: Seq<char>,
)
    requires
        is_white_space(w),
    ensures
        words_from(done, cur, a + seq![w] + b) == words_from(done, cur, a) + spec_words(b),
    decreases a.len(),
{
    let s = a + seq![w] + b;
    if a.len() == 0 {
        assert(s[0] == w);
        assert(s.skip(1) =~= b);
        if cur.len() == 0 {
            assert(cur =~= Seq::<char>::empty());
            lemma_words_from_done(done, cur, b);
        } else {
            lemma_words_from_done(done.push(cur), Seq::empty(), b);
        }
    } else {
        assert(s[0] == a[0]);
        assert(s.skip(1) =~= a.skip(1) + seq![w] + b);
        if is_white_space(a[0]) {
            if cur.len() == 0 {
                assert(cur =~= Seq::<char>::empty());
                lemma_words_from_split(done, cur, a.skip(1), w, b);
            } else {
                lemma_words_from_split(done.push(cur), Seq::empty(), a.skip(1), w, b);
            }
        } else {
            lemma_words_from_split(done, cur.push(a[0]), a.skip(1), w, b);
        }
    }
}

/// How `str::split_whitespace` splits, which together fixes every split: text
/// without whitespace is one word, whitespace alone is none, and a whitespace
/// character separates the words before it from the words after it.
pub proof fn lemma_words_split_at_white_space(a: Seq<char>, w: char, b: Seq<char>)
    ensures
        no_white_space(a) && a.len() > 0 ==> spec_words(a) == seq![a],
        all_white_space(a) ==> spec_words(a) == Seq::<Seq<char>>::empty(),
        is_white_space(w) ==> spec_words(a + seq![w] + b) == spec_words(a) + spec_words(b),
{
    if no_white_space(a) && a.len() > 0 {
        lemma_words_from_no_white_space(Seq::empty(), Seq::empty(), a);
        assert(Seq::<char>::empty() + a =~= a);
        assert(Seq::<Seq<char>>::empty().push(a) =~= seq![a]);
    }
    if all_white_space(a) {
        lemma_words_from_all_white_space(Seq::empty(), a);
    }
    if is_white_space(w) {
        lemma_words_from_split(Seq::empty(), Seq::empty(), a, w, b);
    }
}

/// The native libraries the runtime's archive needs, as individual linker
/// arguments: `listed`, the line rustc reported when the archive was built, split at
/// whitespace.
pub fn runtime_link_deps(listed: &str) -> (deps: Vec<String>)
    ensures
        strings_view(deps@) == spec_words(listed@),
{
    let n = listed.unicode_len();
    let mut deps: Vec<String> = Vec::new();
    let mut start: usize = 0;
    let mut i: usize = 0;
    assert(strings_view(deps@) =~= Seq::<Seq<char>>::empty());
    assert(listed@.subrange(0, 0) =~= Seq::<char>::empty());
    assert(listed@.skip(0) =~= listed@);
    while i < n
        invariant
            n == listed@.len(),
            start <= i <= n,
            words_from(
                strings_view(deps@),
                listed@.subrange(start as int, i as int),
                listed@.skip(i as int),
            ) == spec_words(listed@),
        decreases n - i,
    {
        let c = listed.get_char(i);
        let ghost done = strings_view(deps@);
        let ghost cur = listed@.subrange(start as int, i as int);
        assert(listed@.skip(i as int)[0] == c);
        assert(listed@.skip(i as int).skip(1) =~= listed@.skip(i + 1));
        if is_white_space_exec(c) {
            if start < i {
                let word = listed.substring_char(start, i);
                deps.push(word.to_owned());
                assert(strings_view(deps@) =~= done.push(cur));
            } else {
                assert(cur =~= Seq::<char>::empty());
            }
            start = i + 1;
            assert(listed@.subrange(start as int, i + 1) =~= Seq::<char>::empty());
        } else {
            assert(listed@.subrange(start as int, i + 1) =~= cur.push(c));
        }
        i = i + 1;
    }
    let ghost cur = listed@.subrange(start as int, n as int);
    if start < n {
        let ghost done = strings_view(deps@);
        let word = listed.substring_char(start, n);
        deps.push(word.to_owned());
        assert(strings_view(deps@) =~= done.push(cur));
    } else {
        assert(cur =~= Seq::<char>::empty());
    }
    deps
}

} // verus!
