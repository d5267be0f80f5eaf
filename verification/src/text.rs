//! Characters, words and joined lists of strings.
use vstd::prelude::*;

verus! {

/// The Unicode `White_Space` property.
pub open spec fn is_space(c: char) -> bool {
    let u = c as u32;
    ||| 0x9 <= u <= 0xD
    ||| u == 0x20
    ||| u == 0x85
    ||| u == 0xA0
    ||| u == 0x1680
    ||| 0x2000 <= u <= 0x200A
    ||| u == 0x2028
    ||| u == 0x2029
    ||| u == 0x202F
    ||| u == 0x205F
    ||| u == 0x3000
}

/// No character of `s` is white space.
pub open spec fn no_space(s: Seq<char>) -> bool {
    forall|i: int| 0 <= i < s.len() ==> !is_space(#[trigger] s[i])
}

/// Whether `c` has the Unicode `White_Space` property.
pub fn is_whitespace(c: char) -> (b: bool)
    ensures
        b == is_space(c),
{
    let u = c as u32;
    (0x9 <= u && u <= 0xD) || u == 0x20 || u == 0x85 || u == 0xA0 || u == 0x1680 || (0x2000 <= u
        && u <= 0x200A) || u == 0x2028 || u == 0x2029 || u == 0x202F || u == 0x205F || u == 0x3000
}


/// The words collected so far, `cur`, as a list: empty when nothing was collected.
pub open spec fn flush(cur: Seq<char>) -> Seq<Seq<char>> {
    if cur.len() == 0 {
        seq![]
    } else {
        seq![cur]
    }
}

/// The words of `s`, given that `cur` holds the start of a word that `s` may continue.
pub open spec fn words_from(s: Seq<char>, cur: Seq<char>) -> Seq<Seq<char>>
    decreases s.len(),
{
    if s.len() == 0 {
        flush(cur)
    } else if is_space(s[0]) {
        flush(cur) + words_from(s.drop_first(), seq![])
    } else {
        words_from(s.drop_first(), cur.push(s[0]))
    }
}

/// The words of `s`: its maximal runs of characters that are not white space, in order.
pub open spec fn words(s: Seq<char>) -> Seq<Seq<char>> {
    words_from(s, seq![])
}

/// The items of `list` with `sep` between each two of them.
pub open spec fn join(list: Seq<Seq<char>>, sep: Seq<char>) -> Seq<char>
    decreases list.len(),
{
    if list.len() == 0 {
        seq![]
    } else if list.len() == 1 {
        list[0]
    } else {
        join(list.drop_last(), sep) + sep + list.last()
    }
}

/// The items of `list`, each followed by one space.
pub open spec fn spaced(list: Seq<Seq<char>>) -> Seq<char>
    decreases list.len(),
{
    if list.len() == 0 {
        seq![]
    } else {
        spaced(list.drop_last()) + list.last() + seq![' ']
    }
}

/// The texts of a list of strings.
pub open spec fn texts(list: Seq<String>) -> Seq<Seq<char>> {
    list.map_values(|s: String| s@)
}

/// The characters of `s`, in order.
pub fn chars_of(s: &str) -> (v: Vec<char>)
    ensures
        v@ == s@,
{
    let n = s.unicode_len();
    let mut v: Vec<char> = Vec::new();
    let mut i: usize = 0;
    while i < n
        invariant
            n == s@.len(),
            i <= n,
            v@ == s@.take(i as int),
        decreases n - i,
    {
        v.push(s.get_char(i));
        i = i + 1;
        assert(v@ =~= s@.take(i as int));
    }
    assert(s@.take(n as int) =~= s@);
    v
}

/// The words of `s`, as `str::split_whitespace` gives them.
pub fn split_words(s: &str) -> (res: Vec<String>)
    ensures
        texts(res@) == words(s@),
{
    let chars = chars_of(s);
    let n = chars.len();
    let mut out: Vec<String> = Vec::new();
    let mut start: usize = 0;
    let mut i: usize = 0;
    assert(s@.skip(0) =~= s@);
    assert(s@.subrange(0, 0) =~= Seq::<char>::empty());
    while i < n
        invariant
            n == s@.len(),
            chars@ == s@,
            start <= i <= n,
            texts(out@) + words_from(s@.skip(i as int), s@.subrange(start as int, i as int))
                == words(s@),
        decreases n - i,
    {
        let ghost rest = s@.skip(i as int);
        let ghost cur = s@.subrange(start as int, i as int);
        assert(rest[0] == s@[i as int]);
        assert(rest.drop_first() =~= s@.skip(i + 1));
        if is_whitespace(chars[i]) {
            if start < i {
                let ghost before = out@;
                let w = s.substring_char(start, i).to_owned();
                out.push(w);
                assert(texts(out@) =~= texts(before).push(cur));
            }
            i = i + 1;
            start = i;
            assert(s@.subrange(start as int, i as int) =~= Seq::<char>::empty());
        } else {
            i = i + 1;
            assert(cur.push(s@[i - 1]) =~= s@.subrange(start as int, i as int));
        }
    }
    if start < n {
        let ghost before = out@;
        let w = s.substring_char(start, n).to_owned();
        out.push(w);
        assert(texts(out@) =~= texts(before).push(s@.subrange(start as int, n as int)));
    }
    out
}


/// The strings of `list` with `sep` between each two of them, as `[String]::join` gives them.
pub fn join_strings(list: &Vec<String>, sep: &str) -> (res: String)
    ensures
        res@ == join(texts(list@), sep@),
{
    let mut res = String::new();
    let ghost all = texts(list@);
    let n = list.len();
    let mut i: usize = 0;
    while i < n
        invariant
            n == list@.len(),
            all == texts(list@),
            i <= n,
            res@ == join(all.take(i as int), sep@),
        decreases n - i,
    {
        assert(all.take(i + 1).drop_last() =~= all.take(i as int));
        if i != 0 {
            res.append(sep);
        }
        res.append(list[i].as_str());
        i = i + 1;
    }
    assert(all.take(n as int) =~= all);
    res
}


/// A plain word (nonempty, without white space), as the items of a list are here.
pub open spec fn is_word(w: Seq<char>) -> bool {
    w.len() > 0 && no_space(w)
}

/// Characters that are not white space extend the word being collected.
proof fn lemma_words_from_append(w: Seq<char>, s: Seq<char>, cur: Seq<char>)
    requires
        no_space(w),
    ensures
        words_from(w + s, cur) == words_from(s, cur + w),
    decreases w.len(),
{
    if w.len() == 0 {
        assert(w + s =~= s);
        assert(cur + w =~= cur);
    } else {
        assert((w + s)[0] == w[0]);
        assert((w + s).drop_first() =~= w.drop_first() + s);
        assert(!is_space(w[0]));
        assert(no_space(w.drop_first())) by {
            assert forall|i: int| 0 <= i < w.drop_first().len() implies !is_space(
                #[trigger] w.drop_first()[i],
            ) by {
                assert(w.drop_first()[i] == w[i + 1]);
            }
        }
        lemma_words_from_append(w.drop_first(), s, cur.push(w[0]));
        assert(cur.push(w[0]) + w.drop_first() =~= cur + w);
    }
}

/// A word followed by a space and more text: the word comes first.
proof fn lemma_words_word_then_space(w: Seq<char>, s: Seq<char>)
    requires
        is_word(w),
    ensures
        words(w + seq![' '] + s) == seq![w] + words(s),
{
    let t = seq![' '] + s;
    assert(w + seq![' '] + s =~= w + t);
    lemma_words_from_append(w, t, seq![]);
    assert(Seq::<char>::empty() + w =~= w);
    assert(t[0] == ' ');
    assert(t.drop_first() =~= s);
    assert(is_space(' '));
}

/// A word alone is its own single word.
proof fn lemma_words_single(w: Seq<char>)
    requires
        is_word(w),
    ensures
        words(w) == seq![w],
{
    lemma_words_from_append(w, seq![], seq![]);
    assert(w + Seq::<char>::empty() =~= w);
    assert(Seq::<char>::empty() + w =~= w);
}

/// `spaced` seen from the front of the list.
proof fn lemma_spaced_front(list: Seq<Seq<char>>)
    requires
        list.len() > 0,
    ensures
        spaced(list) == list[0] + seq![' '] + spaced(list.drop_first()),
    decreases list.len(),
{
    if list.len() == 1 {
        assert(list.drop_last().len() == 0);
        assert(list.drop_first().len() == 0);
        assert(spaced(list.drop_last()) =~= Seq::<char>::empty());
        assert(spaced(list) =~= list[0] + seq![' ']);
    } else {
        lemma_spaced_front(list.drop_last());
        assert(list.drop_last().drop_first() =~= list.drop_first().drop_last());
        assert(list.drop_first().last() == list.last());
        assert(spaced(list) =~= list[0] + seq![' '] + spaced(list.drop_first()));
    }
}

/// `join` seen from the front of the list.
proof fn lemma_join_front(list: Seq<Seq<char>>, sep: Seq<char>)
    requires
        list.len() > 1,
    ensures
        join(list, sep) == list[0] + sep + join(list.drop_first(), sep),
    decreases list.len(),
{
    if list.len() == 2 {
        assert(list.drop_last().len() == 1);
        assert(list.drop_first().len() == 1);
        assert(join(list.drop_first(), sep) == list[1]);
        assert(join(list.drop_last(), sep) == list[0]);
        assert(join(list, sep) =~= list[0] + sep + list[1]);
    } else {
        lemma_join_front(list.drop_last(), sep);
        assert(list.drop_last().drop_first() =~= list.drop_first().drop_last());
        assert(list.drop_first().last() == list.last());
        assert(join(list, sep) =~= list[0] + sep + join(list.drop_first(), sep));
    }
}

/// The text that lists each plain word followed by a space splits back into exactly
/// those words.
pub proof fn lemma_words_of_spaced(list: Seq<Seq<char>>)
    requires
        forall|i: int| 0 <= i < list.len() ==> is_word(#[trigger] list[i]),
    ensures
        words(spaced(list)) == list,
    decreases list.len(),
{
    if list.len() == 0 {
        assert(words(spaced(list)) =~= list);
    } else {
        lemma_spaced_front(list);
        assert(is_word(list[0]));
        lemma_words_word_then_space(list[0], spaced(list.drop_first()));
        assert forall|i: int| 0 <= i < list.drop_first().len() implies is_word(
            #[trigger] list.drop_first()[i],
        ) by {
            assert(list.drop_first()[i] == list[i + 1]);
        }
        lemma_words_of_spaced(list.drop_first());
        assert(seq![list[0]] + list.drop_first() =~= list);
    }
}

/// Plain words joined by single spaces split back into exactly those words.
pub proof fn lemma_words_of_joined(list: Seq<Seq<char>>)
    requires
        forall|i: int| 0 <= i < list.len() ==> is_word(#[trigger] list[i]),
    ensures
        words(join(list, seq![' '])) == list,
    decreases list.len(),
{
    if list.len() == 0 {
        assert(words(join(list, seq![' '])) =~= list);
    } else if list.len() == 1 {
        assert(is_word(list[0]));
        lemma_words_single(list[0]);
        assert(seq![list[0]] =~= list);
    } else {
        lemma_join_front(list, seq![' ']);
        assert(is_word(list[0]));
        lemma_words_word_then_space(list[0], join(list.drop_first(), seq![' ']));
        assert forall|i: int| 0 <= i < list.drop_first().len() implies is_word(
            #[trigger] list.drop_first()[i],
        ) by {
            assert(list.drop_first()[i] == list[i + 1]);
        }
        lemma_words_of_joined(list.drop_first());
        assert(seq![list[0]] + list.drop_first() =~= list);
    }
}


/// Whether two texts are equal, character by character.
pub fn same_text(a: &str, b: &str) -> (res: bool)
    ensures
        res == (a@ == b@),
{
    let n = a.unicode_len();
    if n != b.unicode_len() {
        return false;
    }
    let mut i: usize = 0;
    while i < n
        invariant
            n == a@.len(),
            n == b@.len(),
            i <= n,
            forall|k: int| 0 <= k < i ==> a@[k] == b@[k],
        decreases n - i,
    {
        if a.get_char(i) != b.get_char(i) {
            return false;
        }
        i = i + 1;
    }
    assert(a@ =~= b@);
    true
}

} // verus!
