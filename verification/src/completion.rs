//! The completion source: the vocabulary of one session and the engine's
//! completer that is filled with it.

use vstd::prelude::*;
use vstd::string::StringSliceAdditionalSpecFns;
use vstd::utf8::is_char_boundary;
use reedline::DefaultCompleter;
use crate::commands::{command_names, ReplCommand};
use crate::text::{byte_len, is_alpha_numeric, is_white_space};

verus! {

/// The engine's completer: a tree of words, opaque here.
#[verifier::external_type_specification]
#[verifier::external_body]
pub struct ExDefaultCompleter(reedline::DefaultCompleter);

/// The words that a completer holds: the paths of its tree that end in a leaf.
pub uninterp spec fn completer_words(completer: DefaultCompleter) -> Set<Seq<char>>;

/// The characters that a completer takes as part of a word besides the
/// alphanumeric ones and whitespace.
pub uninterp spec fn completer_inclusions(completer: DefaultCompleter) -> Set<char>;

/// The least number of bytes of a word that a completer takes in.
pub uninterp spec fn completer_min_word_len(completer: DefaultCompleter) -> nat;

/// What a completer that holds `words` suggests for the first `pos` bytes of
/// `line`: each suggestion with the bytes of the line that it replaces, from
/// the second component up to the third.
pub uninterp spec fn completer_suggestions(words: Set<Seq<char>>, line: Seq<char>, pos: int) -> Seq<
    (Seq<char>, int, int),
>;

/// Whether a completer with `inclusions` takes `c` as part of a word.
pub open spec fn word_char(c: char, inclusions: Set<char>) -> bool {
    inclusions.contains(c) || is_alpha_numeric(c) || is_white_space(c)
}

/// What a completer with `inclusions` keeps of `word`: its characters up to
/// the first that is no part of a word.
pub open spec fn stored_form(word: Seq<char>, inclusions: Set<char>) -> Seq<char>
    decreases word.len(),
{
    if word.len() > 0 && word_char(word[0], inclusions) {
        seq![word[0]] + stored_form(word.drop_first(), inclusions)
    } else {
        Seq::empty()
    }
}

/// What a completer with `inclusions` and the limit `min_len` keeps of a list
/// of words: the stored form of each that has `min_len` bytes or more.
pub open spec fn stored_words(words: Seq<Seq<char>>, inclusions: Set<char>, min_len: nat) -> Set<
    Seq<char>,
> {
    Set::new(
        |w: Seq<char>|
            exists|i: int|
                0 <= i < words.len() && byte_len(#[trigger] words[i]) >= min_len && w
                    == stored_form(words[i], inclusions),
    )
}

/// The views of a list of strings.
pub open spec fn string_views(words: Seq<String>) -> Seq<Seq<char>> {
    Seq::new(words.len(), |i: int| words[i]@)
}

/// The suggestions of a list of triples, each string by its view.
pub open spec fn suggestion_views(found: Seq<(String, usize, usize)>) -> Seq<(Seq<char>, int, int)> {
    Seq::new(found.len(), |i: int| (found[i].0@, found[i].1 as int, found[i].2 as int))
}

/// The text in front of the cursor: the characters that the first `pos` bytes
/// of `line` spell.
pub open spec fn text_before(line: Seq<char>, pos: int) -> Seq<char> {
    vstd::utf8::decode_utf8(vstd::utf8::encode_utf8(line).take(pos))
}

/// `DefaultCompleter::with_inclusions` gives a completer that holds no word,
/// takes the characters of `incl` as parts of a word, and has the default
/// limit of two bytes.
pub assume_specification[ DefaultCompleter::with_inclusions ](incl: &[char]) -> (completer:
    DefaultCompleter)
    ensures
        completer_words(completer) == Set::<Seq<char>>::empty(),
        completer_inclusions(completer) == incl@.to_set(),
        completer_min_word_len(completer) == 2,
;

/// `DefaultCompleter::set_min_word_len` changes the limit and nothing else.
pub assume_specification[ DefaultCompleter::set_min_word_len ](
    completer: DefaultCompleter,
    len: usize,
) -> (changed: DefaultCompleter)
    ensures
        completer_words(changed) == completer_words(completer),
        completer_inclusions(changed) == completer_inclusions(completer),
        completer_min_word_len(changed) == len,
;

/// `DefaultCompleter::insert` adds the stored form of each word that is long
/// enough, and changes neither the inclusions nor the limit.
pub assume_specification[ DefaultCompleter::insert ](
    completer: &mut DefaultCompleter,
    words: Vec<String>,
)
    ensures
        completer_words(*final(completer)) == completer_words(*old(completer)).union(
            stored_words(
                string_views(words@),
                completer_inclusions(*old(completer)),
                completer_min_word_len(*old(completer)),
            ),
        ),
        completer_inclusions(*final(completer)) == completer_inclusions(*old(completer)),
        completer_min_word_len(*final(completer)) == completer_min_word_len(*old(completer)),
;

/// `Completer::complete` of the engine's completer, each suggestion handed out
/// as its value and the two ends of its span. The call leaves the completer as
/// it was. Every value is a word that the completer holds, replaces a span
/// that is not empty and ends at `pos`, and has more bytes than that span; it
/// is the text that was looked up, which is not empty, and an extension of
/// it, which is not empty either, so that it has two characters or more.
/// Where the text in front of the cursor holds no space, every value begins
/// with that text.
#[verifier::external_body]
pub(crate) fn completer_complete(completer: &mut DefaultCompleter, line: &str, pos: usize) -> (found:
    Vec<(String, usize, usize)>)
    requires
        is_char_boundary(line.spec_bytes(), pos as int),
    ensures
        completer_words(*final(completer)) == completer_words(*old(completer)),
        completer_inclusions(*final(completer)) == completer_inclusions(*old(completer)),
        completer_min_word_len(*final(completer)) == completer_min_word_len(*old(completer)),
        suggestion_views(found@) == completer_suggestions(
            completer_words(*old(completer)),
            line@,
            pos as int,
        ),
        forall|i: int|
            0 <= i < found@.len() ==> {
                &&& completer_words(*old(completer)).contains((#[trigger] found@[i]).0@)
                &&& found@[i].1 < found@[i].2 == pos
                &&& byte_len(found@[i].0@) > found@[i].2 - found@[i].1
                &&& found@[i].0@.len() >= 2
                &&& !text_before(line@, pos as int).contains(' ') ==> text_before(
                    line@,
                    pos as int,
                ).is_prefix_of(found@[i].0@)
            },
{
    let found = reedline::Completer::complete(completer, line, pos);
    found.into_iter().map(|s| (s.value, s.span.start, s.span.end)).collect()
}

/// The values of a list of suggestions.
pub open spec fn suggestion_values(found: Seq<(Seq<char>, int, int)>) -> Seq<Seq<char>> {
    Seq::new(found.len(), |i: int| found[i].0)
}

/// `words` without the later occurrences of a word that came before: what is
/// left keeps the order of the first occurrences.
pub open spec fn dedup(words: Seq<Seq<char>>) -> Seq<Seq<char>>
    decreases words.len(),
{
    if words.len() == 0 {
        Seq::empty()
    } else if dedup(words.drop_last()).contains(words.last()) {
        dedup(words.drop_last())
    } else {
        dedup(words.drop_last()).push(words.last())
    }
}

/// The characters that count as parts of a word besides the alphanumeric ones
/// and whitespace.
pub open spec fn word_inclusions() -> Set<char> {
    set!['.', '-', '_']
}

/// The least length of a completion: a word of fewer bytes is not taken in,
/// and what is offered has as many characters or more.
pub const MIN_WORD_LEN: usize = 2;

/// Whether `c` is part of a word, so that a completion does not end at it.
pub fn is_word_char(c: char) -> (part: bool)
    ensures
        part == word_char(c, word_inclusions()),
{
    c == '.' || c == '-' || c == '_' || c.is_alphanumeric() || c.is_whitespace()
}

/// A deduplicated list has the words of the list it was made of, each once.
pub proof fn dedup_keeps_each_word_once(words: Seq<Seq<char>>)
    ensures
        dedup(words).no_duplicates(),
        dedup(words).len() <= words.len(),
        forall|w: Seq<char>|
            #![trigger dedup(words).contains(w)]
            #![trigger words.contains(w)]
            dedup(words).contains(w) <==> words.contains(w),
    decreases words.len(),
{
    if words.len() > 0 {
        let rest = words.drop_last();
        dedup_keeps_each_word_once(rest);
        assert forall|w: Seq<char>| dedup(words).contains(w) <==> words.contains(w) by {
            if words.contains(w) {
                let i = choose|i: int| 0 <= i < words.len() && words[i] == w;
                if i < rest.len() {
                    assert(rest[i] == w);
                    assert(rest.contains(w));
                }
                if dedup(rest).contains(w) {
                    let k = choose|k: int| 0 <= k < dedup(rest).len() && dedup(rest)[k] == w;
                    assert(dedup(words)[k] == w);
                } else {
                    assert(w == words.last());
                    assert(dedup(words).last() == w);
                }
            }
            if dedup(words).contains(w) {
                let k = choose|k: int| 0 <= k < dedup(words).len() && dedup(words)[k] == w;
                if k < dedup(rest).len() {
                    assert(dedup(rest)[k] == w);
                    assert(dedup(rest).contains(w));
                    let i = choose|i: int| 0 <= i < rest.len() && rest[i] == w;
                    assert(words[i] == w);
                } else {
                    assert(words[words.len() - 1] == w);
                }
            }
        }
    }
}

/// The stored form of a word is the word's longest prefix of word characters:
/// the whole word where every character is one.
pub proof fn stored_form_is_longest_word_prefix(word: Seq<char>, inclusions: Set<char>)
    ensures
        stored_form(word, inclusions).is_prefix_of(word),
        forall|i: int|
            0 <= i < stored_form(word, inclusions).len() ==> word_char(
                #[trigger] word[i],
                inclusions,
            ),
        stored_form(word, inclusions).len() < word.len() ==> !word_char(
            word[stored_form(word, inclusions).len() as int],
            inclusions,
        ),
        (forall|i: int| 0 <= i < word.len() ==> word_char(#[trigger] word[i], inclusions))
            ==> stored_form(word, inclusions) == word,
    decreases word.len(),
{
    if word.len() > 0 && word_char(word[0], inclusions) {
        let rest = word.drop_first();
        stored_form_is_longest_word_prefix(rest, inclusions);
        let kept = stored_form(rest, inclusions);
        assert(stored_form(word, inclusions) =~= seq![word[0]] + kept);
        assert forall|i: int| 0 <= i < kept.len() + 1 implies word_char(
            #[trigger] word[i],
            inclusions,
        ) by {
            if i > 0 {
                assert(word[i] == rest[i - 1]);
            }
        }
        if kept.len() < rest.len() {
            assert(word[kept.len() as int + 1] == rest[kept.len() as int]);
        }
        if forall|i: int| 0 <= i < word.len() ==> word_char(#[trigger] word[i], inclusions) {
            assert forall|i: int| 0 <= i < rest.len() implies word_char(
                #[trigger] rest[i],
                inclusions,
            ) by {
                assert(rest[i] == word[i + 1]);
            }
            assert(seq![word[0]] + rest =~= word);
        }
    } else {
        if word.len() > 0 {
            assert(!word_char(word[0], inclusions));
        }
        assert(stored_form(word, inclusions) =~= Seq::<char>::empty());
    }
}

/// Whether the completer offers `value` on account of `word`: the word is
/// long enough to be taken in, and `value` is what is kept of it.
pub open spec fn offers(word: Seq<char>, value: Seq<char>) -> bool {
    byte_len(word) >= MIN_WORD_LEN && stored_form(word, word_inclusions()) == value
}

/// The place of the first word of `vocabulary`, from `start` on, on account
/// of which `value` is offered; the length of `vocabulary` if there is none.
pub open spec fn first_offer_from(vocabulary: Seq<Seq<char>>, value: Seq<char>, start: int) -> int
    decreases vocabulary.len() - start,
{
    if start < 0 || start >= vocabulary.len() {
        vocabulary.len() as int
    } else if offers(vocabulary[start], value) {
        start
    } else {
        first_offer_from(vocabulary, value, start + 1)
    }
}

/// The place at which the word behind `value` entered `vocabulary`: that of
/// the first word on account of which `value` is offered.
pub open spec fn entry_of(vocabulary: Seq<Seq<char>>, value: Seq<char>) -> int {
    first_offer_from(vocabulary, value, 0)
}

/// Where a suggestion of `value` goes in a list that is in the order of the
/// vocabulary: behind the suggestions whose words entered no later.
pub open spec fn place_of(
    sorted: Seq<(Seq<char>, int, int)>,
    value: Seq<char>,
    vocabulary: Seq<Seq<char>>,
) -> int
    decreases sorted.len(),
{
    if sorted.len() == 0 {
        0
    } else if entry_of(vocabulary, sorted[0].0) > entry_of(vocabulary, value) {
        0
    } else {
        1 + place_of(sorted.drop_first(), value, vocabulary)
    }
}

/// `found` in the order in which the words behind its values entered
/// `vocabulary`; suggestions of one value keep the order they came in.
pub open spec fn ordered_by_vocabulary(
    found: Seq<(Seq<char>, int, int)>,
    vocabulary: Seq<Seq<char>>,
) -> Seq<(Seq<char>, int, int)>
    decreases found.len(),
{
    if found.len() == 0 {
        Seq::empty()
    } else {
        let front = ordered_by_vocabulary(found.drop_last(), vocabulary);
        front.insert(place_of(front, found.last().0, vocabulary), found.last())
    }
}

/// Whether `suggestions` stand in the order in which the words behind their
/// values entered `vocabulary`.
pub open spec fn in_vocabulary_order(
    suggestions: Seq<(Seq<char>, int, int)>,
    vocabulary: Seq<Seq<char>>,
) -> bool {
    forall|i: int, j: int|
        0 <= i < j < suggestions.len() ==> entry_of(vocabulary, (#[trigger] suggestions[i]).0)
            <= entry_of(vocabulary, (#[trigger] suggestions[j]).0)
}

/// What holds of each suggestion that a completer with `words` makes for the
/// first `pos` bytes of `line`.
pub open spec fn sound_suggestion(
    suggestion: (Seq<char>, int, int),
    words: Set<Seq<char>>,
    line: Seq<char>,
    pos: int,
) -> bool {
    &&& words.contains(suggestion.0)
    &&& suggestion.1 < suggestion.2 == pos
    &&& byte_len(suggestion.0) > suggestion.2 - suggestion.1
    &&& suggestion.0.len() >= 2
    &&& !text_before(line, pos).contains(' ') ==> text_before(line, pos).is_prefix_of(suggestion.0)
}

/// The first offer from `start` on is the first: no word between `start` and
/// it offers the value, and the word at it does, if there is one.
pub proof fn first_offer_is_first(vocabulary: Seq<Seq<char>>, value: Seq<char>, start: int)
    requires
        0 <= start <= vocabulary.len(),
    ensures
        start <= first_offer_from(vocabulary, value, start) <= vocabulary.len(),
        forall|k: int|
            start <= k < first_offer_from(vocabulary, value, start) ==> !offers(
                #[trigger] vocabulary[k],
                value,
            ),
        first_offer_from(vocabulary, value, start) < vocabulary.len() ==> offers(
            vocabulary[first_offer_from(vocabulary, value, start)],
            value,
        ),
    decreases vocabulary.len() - start,
{
    if start < vocabulary.len() && !offers(vocabulary[start], value) {
        first_offer_is_first(vocabulary, value, start + 1);
    }
}

/// A token of the vocabulary has a word behind it: its entry is a place of
/// the vocabulary, the word there offers it, and no earlier word does.
pub proof fn token_has_an_entry(vocabulary: Seq<Seq<char>>, value: Seq<char>)
    requires
        stored_words(vocabulary, word_inclusions(), MIN_WORD_LEN as nat).contains(value),
    ensures
        0 <= entry_of(vocabulary, value) < vocabulary.len(),
        offers(vocabulary[entry_of(vocabulary, value)], value),
        forall|k: int|
            0 <= k < entry_of(vocabulary, value) ==> !offers(#[trigger] vocabulary[k], value),
{
    first_offer_is_first(vocabulary, value, 0);
    let i = choose|i: int|
        0 <= i < vocabulary.len() && byte_len(#[trigger] vocabulary[i]) >= MIN_WORD_LEN as nat
            && value == stored_form(vocabulary[i], word_inclusions());
    assert(offers(vocabulary[i], value));
}

/// The place of a suggestion in a list is the first at which a word stands
/// that entered later.
pub proof fn place_is_first_later(
    sorted: Seq<(Seq<char>, int, int)>,
    value: Seq<char>,
    vocabulary: Seq<Seq<char>>,
)
    ensures
        0 <= place_of(sorted, value, vocabulary) <= sorted.len(),
        forall|q: int|
            0 <= q < place_of(sorted, value, vocabulary) ==> entry_of(
                vocabulary,
                (#[trigger] sorted[q]).0,
            ) <= entry_of(vocabulary, value),
        place_of(sorted, value, vocabulary) < sorted.len() ==> entry_of(
            vocabulary,
            sorted[place_of(sorted, value, vocabulary)].0,
        ) > entry_of(vocabulary, value),
    decreases sorted.len(),
{
    if sorted.len() > 0 && entry_of(vocabulary, sorted[0].0) <= entry_of(vocabulary, value) {
        let rest = sorted.drop_first();
        place_is_first_later(rest, value, vocabulary);
        assert forall|q: int| 0 <= q < place_of(sorted, value, vocabulary) implies entry_of(
            vocabulary,
            (#[trigger] sorted[q]).0,
        ) <= entry_of(vocabulary, value) by {
            if q > 0 {
                assert(sorted[q] == rest[q - 1]);
            }
        }
        if place_of(sorted, value, vocabulary) < sorted.len() {
            assert(sorted[place_of(sorted, value, vocabulary)] == rest[place_of(
                rest,
                value,
                vocabulary,
            )]);
        }
    }
}

/// A place with the two properties of `place_of` is that place.
proof fn place_found(
    sorted: Seq<(Seq<char>, int, int)>,
    value: Seq<char>,
    vocabulary: Seq<Seq<char>>,
    p: int,
)
    requires
        0 <= p <= sorted.len(),
        forall|q: int|
            0 <= q < p ==> entry_of(vocabulary, (#[trigger] sorted[q]).0) <= entry_of(
                vocabulary,
                value,
            ),
        p < sorted.len() ==> entry_of(vocabulary, sorted[p].0) > entry_of(vocabulary, value),
    ensures
        place_of(sorted, value, vocabulary) == p,
    decreases p,
{
    if p > 0 {
        let rest = sorted.drop_first();
        assert(entry_of(vocabulary, sorted[0].0) <= entry_of(vocabulary, value));
        assert forall|q: int| 0 <= q < p - 1 implies entry_of(vocabulary, (#[trigger] rest[q]).0)
            <= entry_of(vocabulary, value) by {
            assert(rest[q] == sorted[q + 1]);
        }
        if p - 1 < rest.len() {
            assert(rest[p - 1] == sorted[p]);
        }
        place_found(rest, value, vocabulary, p - 1);
    }
}

/// A list with one more element holds what it held, and that element.
proof fn insert_adds_one<A>(s: Seq<A>, p: int, x: A)
    requires
        0 <= p <= s.len(),
    ensures
        s.insert(p, x).to_multiset() =~= s.to_multiset().insert(x),
{
    broadcast use vstd::seq_lib::group_to_multiset_ensures;

    let t = s.insert(p, x);
    assert(t.remove(p) =~= s);
    assert(t[p] == x);
    assert(t.contains(x));
    assert(t.to_multiset().count(x) > 0);
    assert(t.remove(p).to_multiset() =~= t.to_multiset().remove(x));
    assert(t.to_multiset() =~= t.to_multiset().remove(x).insert(x));
}

/// Ordering by the vocabulary moves suggestions and does no more: the list
/// holds the same suggestions and the same values as before, each as often,
/// and stands in the order of the vocabulary.
pub proof fn ordered_by_vocabulary_is_sorted_and_complete(
    found: Seq<(Seq<char>, int, int)>,
    vocabulary: Seq<Seq<char>>,
)
    ensures
        ordered_by_vocabulary(found, vocabulary).len() == found.len(),
        ordered_by_vocabulary(found, vocabulary).to_multiset() =~= found.to_multiset(),
        suggestion_values(ordered_by_vocabulary(found, vocabulary)).to_multiset()
            =~= suggestion_values(found).to_multiset(),
        in_vocabulary_order(ordered_by_vocabulary(found, vocabulary), vocabulary),
    decreases found.len(),
{
    broadcast use vstd::seq_lib::group_to_multiset_ensures;

    if found.len() == 0 {
        assert(suggestion_values(found) =~= Seq::<Seq<char>>::empty());
        assert(suggestion_values(ordered_by_vocabulary(found, vocabulary)) =~= Seq::<
            Seq<char>,
        >::empty());
    } else {
        let rest = found.drop_last();
        let last = found.last();
        let front = ordered_by_vocabulary(rest, vocabulary);
        let p = place_of(front, last.0, vocabulary);
        let all = front.insert(p, last);
        ordered_by_vocabulary_is_sorted_and_complete(rest, vocabulary);
        place_is_first_later(front, last.0, vocabulary);
        insert_adds_one(front, p, last);
        assert(rest.push(last) =~= found);
        assert(suggestion_values(all) =~= suggestion_values(front).insert(p, last.0));
        insert_adds_one(suggestion_values(front), p, last.0);
        assert(suggestion_values(rest).push(last.0) =~= suggestion_values(found));
        assert forall|i: int, j: int| 0 <= i < j < all.len() implies entry_of(
            vocabulary,
            (#[trigger] all[i]).0,
        ) <= entry_of(vocabulary, (#[trigger] all[j]).0) by {
            if j < p {
                assert(all[i] == front[i] && all[j] == front[j]);
            } else if j == p {
                assert(all[i] == front[i]);
            } else if i == p {
                assert(all[j] == front[j - 1]);
                if p < j - 1 {
                    assert(entry_of(vocabulary, front[p].0) <= entry_of(
                        vocabulary,
                        front[j - 1].0,
                    ));
                }
            } else if i < p {
                assert(all[i] == front[i] && all[j] == front[j - 1]);
            } else {
                assert(all[i] == front[i - 1] && all[j] == front[j - 1]);
            }
        }
    }
}

/// What is kept of a word is its first `n` characters, where those are word
/// characters and the next one, if there is one, is none.
proof fn stored_form_is_take(word: Seq<char>, inclusions: Set<char>, n: int)
    requires
        0 <= n <= word.len(),
        forall|j: int| 0 <= j < n ==> word_char(#[trigger] word[j], inclusions),
        n < word.len() ==> !word_char(word[n], inclusions),
    ensures
        stored_form(word, inclusions) == word.take(n),
    decreases n,
{
    if n == 0 {
        assert(word.take(0) =~= Seq::<char>::empty());
    } else {
        let rest = word.drop_first();
        assert(word_char(word[0], inclusions));
        assert forall|j: int| 0 <= j < n - 1 implies word_char(#[trigger] rest[j], inclusions) by {
            assert(rest[j] == word[j + 1]);
        }
        if n - 1 < rest.len() {
            assert(rest[n - 1] == word[n]);
        }
        stored_form_is_take(rest, inclusions, n - 1);
        assert(seq![word[0]] + rest.take(n - 1) =~= word.take(n));
    }
}

/// The characters of `word`.
fn chars_of(word: &str) -> (chars: Vec<char>)
    ensures
        chars@ == word@,
{
    let mut chars: Vec<char> = Vec::new();
    for c in it: word.chars()
        invariant
            it.seq() == word@,
            chars@ == word@.take(it.index()),
    {
        assert(word@.take(it.index() + 1) =~= word@.take(it.index()).push(c));
        chars.push(c);
    }
    assert(word@.take(word@.len() as int) =~= word@);
    chars
}

/// Whether the completer offers `value` on account of `word`.
fn offers_value(word: &str, value: &Vec<char>) -> (offered: bool)
    ensures
        offered == offers(word@, value@),
{
    if word.as_bytes().len() < MIN_WORD_LEN {
        return false;
    }
    let chars = chars_of(word);
    let len: usize = chars.len();
    let mut n: usize = 0;
    while n < len && is_word_char(chars[n])
        invariant
            len == chars@.len(),
            n <= len,
            forall|j: int| 0 <= j < n ==> word_char(#[trigger] chars@[j], word_inclusions()),
        decreases len - n,
    {
        n = n + 1;
    }
    proof {
        stored_form_is_take(chars@, word_inclusions(), n as int);
    }
    if n != value.len() {
        return false;
    }
    let mut i: usize = 0;
    while i < n
        invariant
            i <= n,
            n <= chars@.len(),
            n == value@.len(),
            byte_len(word@) >= MIN_WORD_LEN,
            stored_form(word@, word_inclusions()) == chars@.take(n as int),
            forall|j: int| 0 <= j < i ==> chars@[j] == value@[j],
        decreases n - i,
    {
        if chars[i] != value[i] {
            assert(chars@.take(n as int)[i as int] != value@[i as int]);
            return false;
        }
        i = i + 1;
    }
    assert(chars@.take(n as int) =~= value@);
    true
}

/// The place at which the word behind `value` entered `vocabulary`.
fn entry_index(vocabulary: &Vec<String>, value: &Vec<char>) -> (entry: usize)
    ensures
        entry == entry_of(string_views(vocabulary@), value@),
{
    let len: usize = vocabulary.len();
    let mut k: usize = 0;
    while k < len
        invariant
            len == vocabulary@.len(),
            k <= len,
            entry_of(string_views(vocabulary@), value@) == first_offer_from(
                string_views(vocabulary@),
                value@,
                k as int,
            ),
        decreases len - k,
    {
        if offers_value(vocabulary[k].as_str(), value) {
            return k;
        }
        k = k + 1;
    }
    k
}

/// The suggestions of `found` in the order in which the words behind their
/// values entered `vocabulary`; suggestions of one value keep the order they
/// came in.
pub fn order_by_vocabulary(found: &Vec<(String, usize, usize)>, vocabulary: &Vec<String>) -> (ordered:
    Vec<(String, usize, usize)>)
    ensures
        suggestion_views(ordered@) == ordered_by_vocabulary(
            suggestion_views(found@),
            string_views(vocabulary@),
        ),
        suggestion_views(ordered@).to_multiset() =~= suggestion_views(found@).to_multiset(),
        in_vocabulary_order(suggestion_views(ordered@), string_views(vocabulary@)),
{
    let ghost all = suggestion_views(found@);
    let ghost words = string_views(vocabulary@);
    let mut ordered: Vec<(String, usize, usize)> = Vec::new();
    let mut entries: Vec<usize> = Vec::new();
    let len: usize = found.len();
    let mut i: usize = 0;
    assert(all.take(0) =~= Seq::empty());
    assert(suggestion_views(ordered@) =~= ordered_by_vocabulary(all.take(0), words));
    while i < len
        invariant
            len == found@.len(),
            i <= len,
            all == suggestion_views(found@),
            words == string_views(vocabulary@),
            entries@.len() == ordered@.len(),
            forall|q: int|
                0 <= q < entries@.len() ==> #[trigger] entries@[q] == entry_of(
                    words,
                    ordered@[q].0@,
                ),
            suggestion_views(ordered@) == ordered_by_vocabulary(all.take(i as int), words),
        decreases len - i,
    {
        let value = chars_of(found[i].0.as_str());
        let entry = entry_index(vocabulary, &value);
        let filled: usize = entries.len();
        let mut p: usize = 0;
        while p < filled && entries[p] <= entry
            invariant
                filled == entries@.len(),
                p <= filled,
                forall|q: int| 0 <= q < p ==> #[trigger] entries@[q] <= entry,
            decreases filled - p,
        {
            p = p + 1;
        }
        let ghost before = suggestion_views(ordered@);
        proof {
            assert forall|q: int| 0 <= q < p implies entry_of(words, (#[trigger] before[q]).0)
                <= entry_of(words, value@) by {
                assert(entries@[q] <= entry);
            }
            if p < before.len() {
                assert(entries@[p as int] > entry);
            }
            place_found(before, value@, words, p as int);
            assert(all.take(i + 1).drop_last() =~= all.take(i as int));
            assert(all.take(i + 1).last() == all[i as int]);
        }
        ordered.insert(p, (found[i].0.clone(), found[i].1, found[i].2));
        entries.insert(p, entry);
        assert(suggestion_views(ordered@) =~= before.insert(p as int, all[i as int]));
        i = i + 1;
    }
    proof {
        assert(all.take(len as int) =~= all);
        ordered_by_vocabulary_is_sorted_and_complete(all, words);
    }
    ordered
}

/// Adds `word` to `vocabulary` unless it is there already.
fn push_unique(vocabulary: &mut Vec<String>, word: String)
    ensures
        string_views(final(vocabulary)@) == if string_views(old(vocabulary)@).contains(word@) {
            string_views(old(vocabulary)@)
        } else {
            string_views(old(vocabulary)@).push(word@)
        },
{
    let n: usize = vocabulary.len();
    let mut i: usize = 0;
    while i < n
        invariant
            n == vocabulary@.len(),
            i <= n,
            *vocabulary == *old(vocabulary),
            forall|k: int| 0 <= k < i ==> string_views(vocabulary@)[k] != word@,
        decreases n - i,
    {
        if vocabulary[i] == word {
            assert(string_views(vocabulary@)[i as int] == word@);
            return ;
        }
        i = i + 1;
    }
    vocabulary.push(word);
    assert(string_views(vocabulary@) =~= string_views(old(vocabulary)@).push(word@));
}

/// A copy of `words`.
fn copy_words(words: &Vec<String>) -> (copy: Vec<String>)
    ensures
        string_views(copy@) == string_views(words@),
{
    let mut copy: Vec<String> = Vec::new();
    let n: usize = words.len();
    let mut i: usize = 0;
    while i < n
        invariant
            n == words@.len(),
            i <= n,
            string_views(copy@) == string_views(words@).take(i as int),
        decreases n - i,
    {
        let ghost before = string_views(copy@);
        copy.push(words[i].clone());
        assert(string_views(copy@) =~= before.push(words@[i as int]@));
        assert(string_views(words@).take(i + 1) =~= before.push(words@[i as int]@));
        i = i + 1;
    }
    assert(string_views(words@).take(n as int) =~= string_views(words@));
    copy
}

/// The completion source of one session: the vocabulary, and the engine's
/// completer filled with it. Neither changes after construction.
pub struct CompletionSource {
    vocabulary: Vec<String>,
    completer: DefaultCompleter,
}

impl View for CompletionSource {
    type V = Seq<Seq<char>>;

    /// The vocabulary, in the order in which its words first came.
    closed spec fn view(&self) -> Seq<Seq<char>> {
        string_views(self.vocabulary@)
    }
}

impl CompletionSource {
    /// The words that can come back as completions: the stored form of each
    /// word of the vocabulary that is long enough.
    pub open spec fn tokens(&self) -> Set<Seq<char>> {
        stored_words(self@, word_inclusions(), MIN_WORD_LEN as nat)
    }

    /// The vocabulary holds no word twice, and the completer holds its tokens.
    pub closed spec fn wf(&self) -> bool {
        &&& self@.no_duplicates()
        &&& completer_words(self.completer) == self.tokens()
        &&& completer_inclusions(self.completer) == word_inclusions()
        &&& completer_min_word_len(self.completer) == MIN_WORD_LEN
    }

    /// The source whose vocabulary is the names of `commands` followed by
    /// `dynamic`, each word once.
    pub fn new(commands: &[ReplCommand], dynamic: Vec<String>) -> (source: Self)
        ensures
            source.wf(),
            source@ == dedup(command_names(commands@) + string_views(dynamic@)),
            source@.no_duplicates(),
            forall|w: Seq<char>|
                source@.contains(w) <==> command_names(commands@).contains(w) || string_views(
                    dynamic@,
                ).contains(w),
    {
        let ghost all = command_names(commands@) + string_views(dynamic@);
        let mut vocabulary: Vec<String> = Vec::new();
        let n: usize = commands.len();
        let mut i: usize = 0;
        assert(all.take(0) =~= Seq::empty());
        assert(string_views(vocabulary@) =~= dedup(all.take(0)));
        while i < n
            invariant
                n == commands@.len(),
                i <= n,
                all == command_names(commands@) + string_views(dynamic@),
                string_views(vocabulary@) == dedup(all.take(i as int)),
            decreases n - i,
        {
            assert(all.take(i + 1).drop_last() =~= all.take(i as int));
            assert(all.take(i + 1).last() == commands@[i as int].name@);
            push_unique(&mut vocabulary, commands[i].name.to_owned());
            i = i + 1;
        }
        let m: usize = dynamic.len();
        let mut j: usize = 0;
        while j < m
            invariant
                n == commands@.len(),
                m == dynamic@.len(),
                j <= m,
                all == command_names(commands@) + string_views(dynamic@),
                string_views(vocabulary@) == dedup(all.take(n + j)),
            decreases m - j,
        {
            assert(all.take(n + j + 1).drop_last() =~= all.take(n + j));
            assert(all.take(n + j + 1).last() == dynamic@[j as int]@);
            push_unique(&mut vocabulary, dynamic[j].clone());
            j = j + 1;
        }
        let inclusions: Vec<char> = vec!['.', '-', '_'];
        let mut completer = DefaultCompleter::with_inclusions(inclusions.as_slice()).set_min_word_len(
            MIN_WORD_LEN,
        );
        completer.insert(copy_words(&vocabulary));
        let source = CompletionSource { vocabulary, completer };
        proof {
            assert(all.take(n + m) =~= all);
            dedup_keeps_each_word_once(all);
            assert(inclusions@.to_set() =~= word_inclusions()) by {
                assert forall|c: char| inclusions@.to_set().contains(c) implies word_inclusions().contains(c) by {
                    let k = choose|k: int| 0 <= k < inclusions@.len() && inclusions@[k] == c;
                }
                assert(inclusions@[0] == '.');
                assert(inclusions@[1] == '-');
                assert(inclusions@[2] == '_');
            }
            assert(completer_words(source.completer) =~= source.tokens());
            assert forall|w: Seq<char>|
                source@.contains(w) <==> command_names(commands@).contains(w) || string_views(
                    dynamic@,
                ).contains(w) by {
                let names = command_names(commands@);
                let extra = string_views(dynamic@);
                if names.contains(w) {
                    let k = choose|k: int| 0 <= k < names.len() && names[k] == w;
                    assert(all[k] == w);
                }
                if extra.contains(w) {
                    let k = choose|k: int| 0 <= k < extra.len() && extra[k] == w;
                    assert(all[names.len() + k] == w);
                }
                if all.contains(w) {
                    let k = choose|k: int| 0 <= k < all.len() && all[k] == w;
                    if k < names.len() {
                        assert(names[k] == w);
                    } else {
                        assert(extra[k - names.len()] == w);
                    }
                }
            }
        }
        source
    }

    /// The vocabulary, in the order in which its words first came.
    pub fn vocabulary(&self) -> (words: &Vec<String>)
        ensures
            string_views(words@) == self@,
    {
        &self.vocabulary
    }

    /// The suggestions for the first `cursor` bytes of `buffer`: those that the
    /// completer makes, each with the bytes of the buffer that it replaces,
    /// in the order in which the words behind them entered the vocabulary;
    /// none where `cursor` is no character boundary of `buffer`. Each value is
    /// a token of the vocabulary, of two characters or more, and begins with
    /// the text in front of the cursor where that text is a single word.
    pub fn suggestions(&mut self, buffer: &str, cursor: usize) -> (found: Vec<
        (String, usize, usize),
    >)
        requires
            old(self).wf(),
        ensures
            final(self).wf(),
            final(self)@ == old(self)@,
            suggestion_views(found@) == if is_char_boundary(buffer.spec_bytes(), cursor as int) {
                ordered_by_vocabulary(
                    completer_suggestions(old(self).tokens(), buffer@, cursor as int),
                    old(self)@,
                )
            } else {
                Seq::empty()
            },
            is_char_boundary(buffer.spec_bytes(), cursor as int) ==> suggestion_views(
                found@,
            ).to_multiset() =~= completer_suggestions(
                old(self).tokens(),
                buffer@,
                cursor as int,
            ).to_multiset(),
            in_vocabulary_order(suggestion_views(found@), old(self)@),
            forall|i: int|
                0 <= i < found@.len() ==> sound_suggestion(
                    #[trigger] suggestion_views(found@)[i],
                    old(self).tokens(),
                    buffer@,
                    cursor as int,
                ),
            forall|i: int|
                0 <= i < found@.len() ==> 0 <= entry_of(
                    old(self)@,
                    (#[trigger] suggestion_views(found@)[i]).0,
                ) < old(self)@.len(),
    {
        if !buffer.is_char_boundary(cursor) {
            let found: Vec<(String, usize, usize)> = Vec::new();
            assert(suggestion_views(found@) =~= Seq::empty());
            return found;
        }
        let made = completer_complete(&mut self.completer, buffer, cursor);
        let found = order_by_vocabulary(&made, &self.vocabulary);
        proof {
            broadcast use vstd::seq_lib::group_to_multiset_ensures;

            let engine = suggestion_views(made@);
            let ordered = suggestion_views(found@);
            assert forall|i: int| 0 <= i < found@.len() implies sound_suggestion(
                #[trigger] ordered[i],
                old(self).tokens(),
                buffer@,
                cursor as int,
            ) && 0 <= entry_of(old(self)@, ordered[i].0) < old(self)@.len() by {
                assert(ordered.contains(ordered[i]));
                assert(ordered.to_multiset().count(ordered[i]) > 0);
                assert(engine.contains(ordered[i]));
                let k = choose|k: int| 0 <= k < engine.len() && engine[k] == ordered[i];
                assert(engine[k] == (made@[k].0@, made@[k].1 as int, made@[k].2 as int));
                token_has_an_entry(old(self)@, ordered[i].0);
            }
        }
        found
    }

    /// The completions for the first `cursor` bytes of `buffer`: the values
    /// that the completer suggests, in the order in which the words behind
    /// them entered the vocabulary; none where `cursor` is no character
    /// boundary of `buffer`. Each is a token of the vocabulary, of two
    /// characters or more, and begins with the text in front of the cursor
    /// where that text is a single word.
    pub fn complete(&mut self, buffer: &str, cursor: usize) -> (candidates: Vec<String>)
        requires
            old(self).wf(),
        ensures
            final(self).wf(),
            final(self)@ == old(self)@,
            string_views(candidates@) == if is_char_boundary(buffer.spec_bytes(), cursor as int) {
                suggestion_values(
                    ordered_by_vocabulary(
                        completer_suggestions(old(self).tokens(), buffer@, cursor as int),
                        old(self)@,
                    ),
                )
            } else {
                Seq::empty()
            },
            is_char_boundary(buffer.spec_bytes(), cursor as int) ==> string_views(
                candidates@,
            ).to_multiset() =~= suggestion_values(
                completer_suggestions(old(self).tokens(), buffer@, cursor as int),
            ).to_multiset(),
            forall|i: int, j: int|
                0 <= i < j < candidates@.len() ==> entry_of(
                    old(self)@,
                    #[trigger] string_views(candidates@)[i],
                ) <= entry_of(old(self)@, #[trigger] string_views(candidates@)[j]),
            forall|i: int|
                0 <= i < candidates@.len() ==> {
                    &&& old(self).tokens().contains(#[trigger] string_views(candidates@)[i])
                    &&& 0 <= entry_of(old(self)@, string_views(candidates@)[i]) < old(self)@.len()
                    &&& string_views(candidates@)[i].len() >= MIN_WORD_LEN
                    &&& byte_len(string_views(candidates@)[i]) >= MIN_WORD_LEN
                    &&& !text_before(buffer@, cursor as int).contains(' ') ==> text_before(
                        buffer@,
                        cursor as int,
                    ).is_prefix_of(string_views(candidates@)[i])
                },
    {
        let found = self.suggestions(buffer, cursor);
        let ghost ordered = suggestion_views(found@);
        let mut candidates: Vec<String> = Vec::new();
        let n: usize = found.len();
        let mut i: usize = 0;
        assert(string_views(candidates@) =~= suggestion_values(ordered).take(0));
        while i < n
            invariant
                n == found@.len(),
                i <= n,
                ordered == suggestion_views(found@),
                string_views(candidates@) == suggestion_values(ordered).take(i as int),
            decreases n - i,
        {
            let ghost before = string_views(candidates@);
            candidates.push(found[i].0.clone());
            assert(string_views(candidates@) =~= before.push(found@[i as int].0@));
            assert(suggestion_values(ordered).take(i + 1) =~= before.push(found@[i as int].0@));
            i = i + 1;
        }
        proof {
            assert(suggestion_values(ordered).take(n as int) =~= suggestion_values(ordered));
            if is_char_boundary(buffer.spec_bytes(), cursor as int) {
                ordered_by_vocabulary_is_sorted_and_complete(
                    completer_suggestions(old(self).tokens(), buffer@, cursor as int),
                    old(self)@,
                );
            } else {
                assert(suggestion_values(ordered) =~= Seq::<Seq<char>>::empty());
            }
            assert forall|i: int, j: int| 0 <= i < j < candidates@.len() implies entry_of(
                old(self)@,
                #[trigger] string_views(candidates@)[i],
            ) <= entry_of(old(self)@, #[trigger] string_views(candidates@)[j]) by {
                assert(string_views(candidates@)[i] == ordered[i].0);
                assert(string_views(candidates@)[j] == ordered[j].0);
            }
            assert forall|i: int| 0 <= i < candidates@.len() implies {
                &&& old(self).tokens().contains(#[trigger] string_views(candidates@)[i])
                &&& 0 <= entry_of(old(self)@, string_views(candidates@)[i]) < old(self)@.len()
                &&& string_views(candidates@)[i].len() >= MIN_WORD_LEN
                &&& byte_len(string_views(candidates@)[i]) >= MIN_WORD_LEN
                &&& !text_before(buffer@, cursor as int).contains(' ') ==> text_before(
                    buffer@,
                    cursor as int,
                ).is_prefix_of(string_views(candidates@)[i])
            } by {
                assert(string_views(candidates@)[i] == ordered[i].0);
                assert(sound_suggestion(ordered[i], old(self).tokens(), buffer@, cursor as int));
            }
        }
        candidates
    }

    /// The engine's completer, filled with the tokens of the vocabulary.
    pub fn into_completer(self) -> (completer: DefaultCompleter)
        requires
            self.wf(),
        ensures
            completer_words(completer) == self.tokens(),
            completer_inclusions(completer) == word_inclusions(),
            completer_min_word_len(completer) == MIN_WORD_LEN,
    {
        self.completer
    }
}

} // verus!
