//! Reading a novel's page: its title and the links of its latest chapters.
use vstd::prelude::*;

use soup::{NodeExt, QueryBuilderExt};

use crate::structures::SQLResultBoxnovel;
use crate::text::{is_space, is_word, join, join_strings, lemma_words_of_joined, texts, words};

verus! {

/// The text held by an optional string.
pub open spec fn opt_text(o: Option<String>) -> Option<Seq<char>> {
    match o {
        Some(s) => Some(s@),
        None => None,
    }
}

/// The texts held by an optional optional string.
pub open spec fn opt_opt_text(o: Option<Option<String>>) -> Option<Option<Seq<char>>> {
    match o {
        Some(inner) => Some(opt_text(inner)),
        None => None,
    }
}

/// What the HTML parser gives as the text of the first element of `html`, in document
/// order, with tag `tag` and an attribute `attr` that matches `value`.
pub uninterp spec fn first_match_text(
    html: Seq<char>,
    tag: Seq<char>,
    attr: Seq<char>,
    value: Seq<char>,
) -> Option<Seq<char>>;

/// What the HTML parser gives for each element of `html`, in document order, with tag
/// `tag` and an attribute `attr` that matches `value`: for its first element (itself or
/// a descendant) with tag `inner_tag`, the value of its attribute `inner_attr`, if any;
/// nothing for an element without such an inner element.
pub uninterp spec fn inner_attrs_of_matches(
    html: Seq<char>,
    tag: Seq<char>,
    attr: Seq<char>,
    value: Seq<char>,
    inner_tag: Seq<char>,
    inner_attr: Seq<char>,
) -> Seq<Option<Option<Seq<char>>>>;

/// What the regular expression `pattern` gives when each of its leftmost, non-overlapping
/// matches in `text` is replaced by `replacement`, in which `$` group references are
/// expanded (the library passes only the empty replacement, which has none); nothing when
/// `pattern` is not a regular expression that can be built.
pub uninterp spec fn regex_replaced(
    pattern: Seq<char>,
    text: Seq<char>,
    replacement: Seq<char>,
) -> Option<Seq<char>>;

/// Parses `html` with `soup::Soup::new` and gives the `NodeExt::text` of the element that
/// `QueryBuilderExt::tag(tag).attr(attr, value).find()` returns. Claimed: the result is a
/// function of the four texts alone, named `first_match_text`; nothing else is claimed
/// of it.
#[verifier::external_body]
fn find_first_text(html: &str, tag: &str, attr: &str, value: &str) -> (res: Option<String>)
    ensures
        opt_text(res) == first_match_text(html@, tag@, attr@, value@),
{
    let soup = soup::Soup::new(html);
    match soup.tag(tag).attr(attr, value).find() {
        Some(node) => Some(node.text()),
        None => None,
    }
}

/// Parses `html` with `soup::Soup::new`; for each element that
/// `QueryBuilderExt::tag(tag).attr(attr, value).find_all()` yields, in order, gives what
/// `tag(inner_tag).find()` on that element returns, mapped through `NodeExt::get(inner_attr)`.
/// Claimed: the result is a function of the six texts alone, named
/// `inner_attrs_of_matches`; nothing else is claimed of it.
#[verifier::external_body]
fn find_inner_attrs(
    html: &str,
    tag: &str,
    attr: &str,
    value: &str,
    inner_tag: &str,
    inner_attr: &str,
) -> (res: Vec<Option<Option<String>>>)
    ensures
        res@.map_values(|o: Option<Option<String>>| opt_opt_text(o)) == inner_attrs_of_matches(
            html@,
            tag@,
            attr@,
            value@,
            inner_tag@,
            inner_attr@,
        ),
{
    let soup = soup::Soup::new(html);
    let mut res = Vec::new();
    for node in soup.tag(tag).attr(attr, value).find_all() {
        res.push(
            match node.tag(inner_tag).find() {
                Some(inner) => Some(inner.get(inner_attr)),
                None => None,
            },
        );
    }
    res
}

/// Whether `c` is an ASCII letter or digit (a member of the class `[a-zA-Z0-9]`).
pub open spec fn is_ascii_alnum(c: char) -> bool {
    let u = c as u32;
    (48 <= u <= 57) || (65 <= u <= 90) || (97 <= u <= 122)
}

/// `s` with each leftmost, non-overlapping pair of a character outside `[a-zA-Z0-9]`
/// followed by a white-space character deleted: what the regular expression
/// `[^a-zA-Z0-9]\s` (whose `\s` is Unicode white space) deletes.
pub open spec fn without_spaced_symbols(s: Seq<char>) -> Seq<char>
    decreases s.len(),
{
    if s.len() < 2 {
        s
    } else if !is_ascii_alnum(s[0]) && is_space(s[1]) {
        without_spaced_symbols(s.subrange(2, s.len() as int))
    } else {
        seq![s[0]] + without_spaced_symbols(s.drop_first())
    }
}

/// The pattern whose matches `clear` deletes: a character that is not an ASCII letter or
/// digit, followed by a white-space character.
pub open spec fn clear_pattern() -> Seq<char> {
    "[^a-zA-Z0-9]\\s"@
}

/// Builds `regex::Regex::new(pattern)` and, when that succeeds, gives
/// `Regex::replace_all(text, replacement)` as a `String`; nothing when it fails.
/// Claimed: the result is a function of the three texts alone, named `regex_replaced`.
/// For the pattern `[^a-zA-Z0-9]\s` (a valid pattern far below the size limits, so
/// `Regex::new` succeeds) with an empty replacement (no `$` to expand), it is also
/// claimed to be `text` with each leftmost, non-overlapping match deleted, as
/// `without_spaced_symbols` states; nothing more is claimed for other patterns.
#[verifier::external_body]
fn replace_all_matches(pattern: &str, text: &str, replacement: &str) -> (res: Option<String>)
    ensures
        opt_text(res) == regex_replaced(pattern@, text@, replacement@),
        pattern@ == clear_pattern() && replacement@.len() == 0 ==> opt_text(res) == Some(
            without_spaced_symbols(text@),
        ),
{
    match regex::Regex::new(pattern) {
        Ok(re) => Some(re.replace_all(text, replacement).to_string()),
        Err(_) => None,
    }
}

/// At most this many chapter entries of a page are read, the newest first.
pub const CHAPTER_LIMIT: usize = 30;

/// `s` without its tabs and newlines.
pub open spec fn without_breaks(s: Seq<char>) -> Seq<char>
    decreases s.len(),
{
    if s.len() == 0 {
        seq![]
    } else if s.last() == '\t' || s.last() == '\n' {
        without_breaks(s.drop_last())
    } else {
        without_breaks(s.drop_last()).push(s.last())
    }
}

/// What `clear` gives for `s`.
pub open spec fn cleared(s: Seq<char>) -> Seq<char> {
    without_spaced_symbols(without_breaks(s))
}

/// `s` without its tabs and newlines.
pub fn remove_breaks(s: &str) -> (res: String)
    ensures
        res@ == without_breaks(s@),
{
    let n = s.unicode_len();
    let mut res = String::new();
    let mut i: usize = 0;
    assert(s@.take(0) =~= Seq::<char>::empty());
    while i < n
        invariant
            n == s@.len(),
            i <= n,
            res@ == without_breaks(s@.take(i as int)),
        decreases n - i,
    {
        assert(s@.take(i + 1).drop_last() =~= s@.take(i as int));
        assert(s@.take(i + 1).last() == s@[i as int]);
        let c = s.get_char(i);
        if c != '\t' && c != '\n' {
            let piece = s.substring_char(i, i + 1);
            assert(piece@ =~= seq![c]);
            res.append(piece);
        }
        i = i + 1;
    }
    assert(s@.take(n as int) =~= s@);
    res
}

/// Tidies a title scraped from a page: removes its tabs and newlines, then deletes each
/// match of `clear_pattern` (a character that is not an ASCII letter or digit followed by
/// white space).
pub fn clear(s: &str) -> (res: String)
    ensures
        res@ == cleared(s@),
{
    let pattern = "[^a-zA-Z0-9]\\s";
    let none = "";
    proof {
        reveal_strlit("");
    }
    assert(none@ =~= Seq::<char>::empty());
    let flat = remove_breaks(s);
    match replace_all_matches(pattern, flat.as_str(), none) {
        Some(t) => t,
        None => {
            assert(false);
            String::new()
        },
    }
}

/// The links of the chapter entries in `anchors` (one per entry: nothing when the entry
/// has no link element, the link's target when it has one), skipping entries without a
/// link element; nothing when some link element has no target.
pub open spec fn entry_links(anchors: Seq<Option<Option<Seq<char>>>>) -> Option<Seq<Seq<char>>>
    decreases anchors.len(),
{
    if anchors.len() == 0 {
        Some(seq![])
    } else {
        match entry_links(anchors.drop_last()) {
            None => None,
            Some(links) => match anchors.last() {
                None => Some(links),
                Some(None) => None,
                Some(Some(target)) => Some(links.push(target)),
            },
        }
    }
}

/// Once an entry's link element lacks a target, no longer list of entries has links.
proof fn lemma_entry_links_fail_extends(a: Seq<Option<Option<Seq<char>>>>, k: int)
    requires
        0 <= k <= a.len(),
        entry_links(a.take(k)) is None,
    ensures
        entry_links(a) is None,
    decreases a.len(),
{
    if k == a.len() {
        assert(a.take(k) =~= a);
    } else {
        assert(a.drop_last().take(k) =~= a.take(k));
        lemma_entry_links_fail_extends(a.drop_last(), k);
    }
}

/// The first `CHAPTER_LIMIT` entries of `anchors` (all of them when there are fewer).
pub open spec fn limited(anchors: Seq<Option<Option<Seq<char>>>>) -> Seq<Option<Option<Seq<char>>>> {
    if anchors.len() <= CHAPTER_LIMIT {
        anchors
    } else {
        anchors.take(CHAPTER_LIMIT as int)
    }
}

/// What `chapter_links` gives: the links of the first `CHAPTER_LIMIT` entries joined by
/// single spaces; nothing when one of their link elements has no target.
pub open spec fn joined_chapter_links(anchors: Seq<Option<Option<Seq<char>>>>) -> Option<Seq<char>> {
    match entry_links(limited(anchors)) {
        Some(links) => Some(join(links, seq![' '])),
        None => None,
    }
}

/// The chapter links of a page, from what the parser found for its chapter entries, in
/// page order, joined by single spaces.
pub fn chapter_links(anchors: &Vec<Option<Option<String>>>) -> (res: Option<String>)
    ensures
        opt_text(res) == joined_chapter_links(
            anchors@.map_values(|o: Option<Option<String>>| opt_opt_text(o)),
        ),
{
    let ghost all = anchors@.map_values(|o: Option<Option<String>>| opt_opt_text(o));
    let n = if anchors.len() <= CHAPTER_LIMIT {
        anchors.len()
    } else {
        CHAPTER_LIMIT
    };
    assert(limited(all) =~= all.take(n as int));
    let mut links: Vec<String> = Vec::new();
    let mut i: usize = 0;
    assert(all.take(0) =~= Seq::<Option<Option<Seq<char>>>>::empty());
    while i < n
        invariant
            n <= anchors@.len(),
            all == anchors@.map_values(|o: Option<Option<String>>| opt_opt_text(o)),
            i <= n,
            limited(all) == all.take(n as int),
            entry_links(all.take(i as int)) == Some(texts(links@)),
        decreases n - i,
    {
        assert(all.take(i + 1).drop_last() =~= all.take(i as int));
        assert(all.take(i + 1).last() == opt_opt_text(anchors@[i as int]));
        match &anchors[i] {
            None => {},
            Some(None) => {
                proof {
                    assert(entry_links(all.take(i + 1)) is None);
                    lemma_entry_links_fail_extends(all.take(n as int), i + 1);
                    assert(all.take(n as int).take(i + 1) =~= all.take(i + 1));
                }
                return None;
            },
            Some(Some(target)) => {
                let ghost before = links@;
                links.push(target.clone());
                assert(texts(links@) =~= texts(before).push(target@));
            },
        }
        i = i + 1;
    }
    let space = " ";
    proof {
        reveal_strlit(" ");
    }
    assert(space@ =~= seq![' ']);
    Some(join_strings(&links, space))
}


/// What is read from a novel's page: the cleared text of its first `div` of class
/// `post-title`, and the joined links of its `li` entries of class `wp-manga-chapter`
/// (the target of each entry's first `a`); nothing when either cannot be read.
pub open spec fn page_content(html: Seq<char>) -> Option<(Seq<char>, Seq<char>)> {
    match first_match_text(html, "div"@, "class"@, "post-title"@) {
        None => None,
        Some(text) => match joined_chapter_links(
            inner_attrs_of_matches(html, "li"@, "class"@, "wp-manga-chapter"@, "a"@, "href"@),
        ) {
            None => None,
            Some(current) => Some((cleared(text), current)),
        },
    }
}

/// Reads a novel's page `s` into the row to store for the novel `lk` linked in channel
/// `c_id` of guild `g_id`; nothing when the page has no title (no `div` of class
/// `post-title`) or when one of its first `CHAPTER_LIMIT` chapter entries has a link
/// element without a target. Such a page gives nothing here rather than a panic; the
/// callers answer it, as any unreadable page, with "Unable to locate chapters".
pub fn process_soup(s: &str, lk: String, c_id: String, g_id: String) -> (res: Option<
    SQLResultBoxnovel,
>)
    ensures
        match res {
            None => page_content(s@) is None,
            Some(row) => {
                &&& page_content(s@) == Some((row.title@, row.current@))
                &&& row.novel == lk
                &&& row.channel_id == c_id
                &&& row.guild_id == g_id
            },
        },
{
    let text = match find_first_text(s, "div", "class", "post-title") {
        Some(t) => t,
        None => {
            return None;
        },
    };
    let title = clear(text.as_str());
    let anchors = find_inner_attrs(s, "li", "class", "wp-manga-chapter", "a", "href");
    let current = match chapter_links(&anchors) {
        Some(c) => c,
        None => {
            return None;
        },
    };
    Some(SQLResultBoxnovel { guild_id: g_id, channel_id: c_id, title, novel: lk, current })
}


/// When the page's chapter links are plain words (nonempty, without white space), the
/// text stored for them reads back as exactly those links, in page order.
pub proof fn lemma_scraped_links_read_back(
    anchors: Seq<Option<Option<Seq<char>>>>,
    links: Seq<Seq<char>>,
)
    requires
        entry_links(limited(anchors)) == Some(links),
        forall|i: int| 0 <= i < links.len() ==> is_word(#[trigger] links[i]),
    ensures
        joined_chapter_links(anchors) == Some(join(links, seq![' '])),
        words(join(links, seq![' '])) == links,
{
    lemma_words_of_joined(links);
}


/// Removing breaks keeps every character of `s` but its tabs and newlines, in order.
pub proof fn lemma_breaks_are_filtered(s: Seq<char>)
    ensures
        without_breaks(s) == s.filter(|c: char| c != '\t' && c != '\n'),
    decreases s.len(),
{
    reveal(Seq::filter);
    if s.len() > 0 {
        lemma_breaks_are_filtered(s.drop_last());
    }
}

/// Deleting symbol-then-space pairs changes nothing in a text that has none.
proof fn lemma_no_pairs_unchanged(s: Seq<char>)
    requires
        forall|i: int| 0 <= i < s.len() - 1 ==> is_ascii_alnum(#[trigger] s[i]) || !is_space(s[i + 1]),
    ensures
        without_spaced_symbols(s) == s,
    decreases s.len(),
{
    if s.len() >= 2 {
        let t = s.drop_first();
        assert forall|i: int| 0 <= i < t.len() - 1 implies is_ascii_alnum(#[trigger] t[i])
            || !is_space(t[i + 1]) by {
            assert(t[i] == s[i + 1]);
            assert(t[i + 1] == s[i + 2]);
        }
        lemma_no_pairs_unchanged(t);
        assert(is_ascii_alnum(s[0]) || !is_space(s[1]));
        assert(seq![s[0]] + t =~= s);
    }
}

/// A title without tabs, newlines, or a character outside `[a-zA-Z0-9]` followed by
/// white space comes back from `clear` unchanged.
pub proof fn lemma_plain_title_unchanged(s: Seq<char>)
    requires
        forall|i: int| 0 <= i < s.len() ==> #[trigger] s[i] != '\t' && s[i] != '\n',
        forall|i: int| 0 <= i < s.len() - 1 ==> is_ascii_alnum(#[trigger] s[i]) || !is_space(s[i + 1]),
    ensures
        cleared(s) == s,
{
    lemma_breaks_kept(s);
    lemma_no_pairs_unchanged(s);
}

proof fn lemma_breaks_kept(s: Seq<char>)
    requires
        forall|i: int| 0 <= i < s.len() ==> #[trigger] s[i] != '\t' && s[i] != '\n',
    ensures
        without_breaks(s) == s,
    decreases s.len(),
{
    if s.len() > 0 {
        let t = s.drop_last();
        assert forall|i: int| 0 <= i < t.len() implies #[trigger] t[i] != '\t' && t[i] != '\n' by {
            assert(t[i] == s[i]);
        }
        lemma_breaks_kept(t);
        assert(s.last() == s[s.len() - 1]);
        assert(t.push(s.last()) =~= s);
    }
}

/// Entries that all carry a link give exactly those links.
proof fn lemma_entry_links_all_present(links: Seq<Seq<char>>)
    ensures
        entry_links(links.map_values(|l: Seq<char>| Some(Some(l)))) == Some(links),
    decreases links.len(),
{
    let a = links.map_values(|l: Seq<char>| Some(Some(l)));
    if links.len() > 0 {
        lemma_entry_links_all_present(links.drop_last());
        assert(a.drop_last() =~= links.drop_last().map_values(|l: Seq<char>| Some(Some(l))));
        assert(links.drop_last().push(links.last()) =~= links);
    } else {
        assert(a.len() == 0);
    }
}

/// On a page whose chapter entries all carry a link, the links read are those of the
/// first entries, up to `CHAPTER_LIMIT` of them, in page order, joined by single spaces.
pub proof fn lemma_first_entries_read(links: Seq<Seq<char>>)
    ensures
        joined_chapter_links(links.map_values(|l: Seq<char>| Some(Some(l)))) == Some(
            join(
                links.subrange(
                    0,
                    if links.len() <= CHAPTER_LIMIT {
                        links.len() as int
                    } else {
                        CHAPTER_LIMIT as int
                    },
                ),
                seq![' '],
            ),
        ),
{
    let a = links.map_values(|l: Seq<char>| Some(Some(l)));
    let k = if links.len() <= CHAPTER_LIMIT {
        links.len() as int
    } else {
        CHAPTER_LIMIT as int
    };
    let first = links.subrange(0, k);
    assert(limited(a) =~= first.map_values(|l: Seq<char>| Some(Some(l))));
    lemma_entry_links_all_present(first);
}

} // verus!
