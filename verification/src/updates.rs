//! Finding the chapters published since a novel was last checked, and the announcements
//! to post for them.
use vstd::prelude::*;

use crate::ids::{parse_u64, u64_from_text};
use crate::structures::SQLResultBoxnovel;
use crate::text::{texts, words};

verus! {

/// The links of `fetched` that `stored` does not hold, in the reverse of their order in
/// `fetched` (a page lists its newest chapter first, so this is oldest first).
pub open spec fn new_links(stored: Seq<Seq<char>>, fetched: Seq<Seq<char>>) -> Seq<Seq<char>>
    decreases fetched.len(),
{
    if fetched.len() == 0 {
        seq![]
    } else {
        let rest = new_links(stored, fetched.drop_last());
        if stored.contains(fetched.last()) {
            rest
        } else {
            seq![fetched.last()] + rest
        }
    }
}

/// Whether `list` holds a string with the text of `s`.
pub fn contains_text(list: &Vec<String>, s: &String) -> (res: bool)
    ensures
        res == texts(list@).contains(s@),
{
    let n = list.len();
    let mut i: usize = 0;
    while i < n
        invariant
            n == list@.len(),
            i <= n,
            forall|k: int| 0 <= k < i ==> list@[k]@ != s@,
        decreases n - i,
    {
        if list[i] == *s {
            assert(texts(list@)[i as int] == s@);
            return true;
        }
        i = i + 1;
    }
    assert forall|k: int| 0 <= k < texts(list@).len() implies texts(list@)[k] != s@ by {
        assert(texts(list@)[k] == list@[k]@);
    }
    false
}

/// The chapter links of `fetched` that `stored` does not hold, oldest first: the
/// chapters published since `stored` was taken.
pub fn new_chapters(stored: &Vec<String>, fetched: &Vec<String>) -> (res: Vec<String>)
    ensures
        texts(res@) == new_links(texts(stored@), texts(fetched@)),
{
    let ghost f = texts(fetched@);
    let n = fetched.len();
    let mut res: Vec<String> = Vec::new();
    let mut i: usize = 0;
    assert(f.take(0) =~= Seq::<Seq<char>>::empty());
    while i < n
        invariant
            n == fetched@.len(),
            f == texts(fetched@),
            i <= n,
            texts(res@) == new_links(texts(stored@), f.take(i as int)),
        decreases n - i,
    {
        assert(f.take(i + 1).drop_last() =~= f.take(i as int));
        assert(f.take(i + 1).last() == fetched@[i as int]@);
        if !contains_text(stored, &fetched[i]) {
            let ghost before = res@;
            res.insert(0, fetched[i].clone());
            assert(texts(res@) =~= seq![fetched@[i as int]@] + texts(before));
        }
        i = i + 1;
    }
    assert(f.take(n as int) =~= f);
    res
}

/// A link is new exactly when the page lists it and it was not stored.
pub proof fn lemma_new_links_members(stored: Seq<Seq<char>>, fetched: Seq<Seq<char>>, l: Seq<char>)
    ensures
        new_links(stored, fetched).contains(l) <==> (fetched.contains(l) && !stored.contains(l)),
    decreases fetched.len(),
{
    if fetched.len() > 0 {
        let init = fetched.drop_last();
        lemma_new_links_members(stored, init, l);
        let rest = new_links(stored, init);
        if fetched.contains(l) && !stored.contains(l) {
            let k = choose|k: int| 0 <= k < fetched.len() && fetched[k] == l;
            if k < fetched.len() - 1 {
                assert(init[k] == l);
            }
        }
        if init.contains(l) {
            let k = choose|k: int| 0 <= k < init.len() && init[k] == l;
            assert(fetched[k] == l);
        }
        if !stored.contains(fetched.last()) {
            let r = seq![fetched.last()] + rest;
            assert(r[0] == fetched.last());
            if rest.contains(l) {
                let k = choose|k: int| 0 <= k < rest.len() && rest[k] == l;
                assert(r[k + 1] == l);
            }
            if r.contains(l) && l != fetched.last() {
                let k = choose|k: int| 0 <= k < r.len() && r[k] == l;
                assert(rest[k - 1] == l);
            }
        }
    }
}

/// Once every link of a page has been stored, the page has no new chapters.
pub proof fn lemma_no_new_links_when_stored(stored: Seq<Seq<char>>, fetched: Seq<Seq<char>>)
    requires
        forall|i: int| 0 <= i < fetched.len() ==> stored.contains(#[trigger] fetched[i]),
    ensures
        new_links(stored, fetched) == Seq::<Seq<char>>::empty(),
    decreases fetched.len(),
{
    if fetched.len() > 0 {
        assert(stored.contains(fetched[fetched.len() - 1]));
        lemma_no_new_links_when_stored(stored, fetched.drop_last());
    }
}

/// After a novel's row takes the chapter links of its page (as a newly added novel's row
/// does, and as the row is updated after announcing), reading the same page again
/// announces nothing: no chapter is announced twice.
pub proof fn lemma_no_repeat_after_update(stored: SQLResultBoxnovel, fetched: SQLResultBoxnovel)
    requires
        stored.current@ == fetched.current@,
    ensures
        announced_links(stored, fetched) == Seq::<Seq<char>>::empty(),
{
    let w = words(fetched.current@);
    assert forall|i: int| 0 <= i < w.len() implies w.contains(#[trigger] w[i]) by {}
    lemma_no_new_links_when_stored(w, w);
}

/// A message to post in a channel about a newly published chapter.
pub struct Announcement {
    pub channel_id: u64,
    pub title: String,
    pub url: String,
    pub description: String,
}

/// Why the chapters of a linked novel could not be announced.
#[derive(PartialEq, Eq, Structural, Debug)]
pub enum UpdateError {
    /// The novel's page had no readable title or chapter list.
    ChaptersNotFound,
    /// The channel id stored for the novel is not a number.
    InvalidChannel,
}

/// The title of an announcement about a chapter of the novel titled `novel_title`.
pub open spec fn announcement_title(novel_title: Seq<char>) -> Seq<char> {
    "New Chapter for "@ + novel_title
}

/// The announcements `res` are those of the new chapters `links` of a novel titled
/// `title`, in order, all posted to `channel`.
pub open spec fn announces(
    res: Seq<Announcement>,
    links: Seq<Seq<char>>,
    channel: u64,
    title: Seq<char>,
) -> bool {
    &&& res.len() == links.len()
    &&& forall|i: int|
        0 <= i < res.len() ==> {
            &&& (#[trigger] res[i]).channel_id == channel
            &&& res[i].title@ == announcement_title(title)
            &&& res[i].url@ == links[i]
            &&& res[i].description@ == links[i]
        }
}

/// The chapters announced for a row `stored` whose page, read again, gave `fetched`:
/// the links of `fetched` that `stored` does not hold, oldest first.
pub open spec fn announced_links(stored: SQLResultBoxnovel, fetched: SQLResultBoxnovel) -> Seq<
    Seq<char>,
> {
    new_links(words(stored.current@), words(fetched.current@))
}

/// What to post for the linked novel `stored`, given its page read again (nothing when
/// the page had no readable title or chapter list): one announcement per new chapter,
/// oldest first, in the novel's stored channel.
pub fn plan_announcements(stored: &SQLResultBoxnovel, fetched: &Option<SQLResultBoxnovel>) -> (res:
    Result<Vec<Announcement>, UpdateError>)
    ensures
        match fetched {
            None => res == Err::<Vec<Announcement>, UpdateError>(UpdateError::ChaptersNotFound),
            Some(f) => {
                let links = announced_links(*stored, *f);
                if links.len() == 0 {
                    res matches Ok(a) && a@.len() == 0
                } else {
                    match u64_from_text(stored.channel_id@) {
                        None => res == Err::<Vec<Announcement>, UpdateError>(
                            UpdateError::InvalidChannel,
                        ),
                        Some(channel) => res matches Ok(a) && announces(a@, links, channel, f.title@),
                    }
                }
            },
        },
{
    let f = match fetched {
        Some(f) => f,
        None => {
            return Err(UpdateError::ChaptersNotFound);
        },
    };
    let current = stored.convert();
    let latest = f.convert();
    let links = new_chapters(&current, &latest);
    let mut res: Vec<Announcement> = Vec::new();
    if links.len() == 0 {
        return Ok(res);
    }
    let channel = match parse_u64(stored.channel_id.as_str()) {
        Some(c) => c,
        None => {
            return Err(UpdateError::InvalidChannel);
        },
    };
    let ghost l = texts(links@);
    let n = links.len();
    let mut i: usize = 0;
    while i < n
        invariant
            n == links@.len(),
            l == texts(links@),
            i <= n,
            announces(res@, l.take(i as int), channel, f.title@),
        decreases n - i,
    {
        let mut title = String::new();
        title.append("New Chapter for ");
        title.append(f.title.as_str());
        let a = Announcement {
            channel_id: channel,
            title,
            url: links[i].clone(),
            description: links[i].clone(),
        };
        res.push(a);
        assert(l[i as int] == links@[i as int]@);
        assert(l.take(i + 1).len() == res@.len());
        assert forall|k: int| 0 <= k < res@.len() implies {
            &&& (#[trigger] res@[k]).channel_id == channel
            &&& res@[k].title@ == announcement_title(f.title@)
            &&& res@[k].url@ == l.take(i + 1)[k]
            &&& res@[k].description@ == l.take(i + 1)[k]
        } by {
            if k < i {
                assert(l.take(i + 1)[k] == l.take(i as int)[k]);
            }
        }
        i = i + 1;
    }
    assert(l.take(n as int) =~= l);
    Ok(res)
}


/// The chapter list a row holds after its page was read again: the page's list when it
/// had new chapters (which were announced), the stored list otherwise.
pub open spec fn current_after_check(stored: SQLResultBoxnovel, fetched: SQLResultBoxnovel) -> Seq<
    char,
> {
    if announced_links(stored, fetched).len() == 0 {
        stored.current@
    } else {
        fetched.current@
    }
}

/// The chapter list to store for the row `stored` once its page, read again, gave
/// `fetched` and the new chapters were announced: the page's list when there were new
/// chapters; nothing (the row stays as it is) when there were none.
pub fn stored_after_check(stored: &SQLResultBoxnovel, fetched: &SQLResultBoxnovel) -> (res: Option<
    String,
>)
    ensures
        announced_links(*stored, *fetched).len() == 0 ==> res is None,
        announced_links(*stored, *fetched).len() > 0 ==> (res matches Some(c) && c@
            == fetched.current@),
{
    let links = new_chapters(&stored.convert(), &fetched.convert());
    if links.len() == 0 {
        None
    } else {
        Some(fetched.current.clone())
    }
}

/// Across two checks: once a row holds what `stored_after_check` left in it, reading the
/// same page again announces nothing and stores nothing, so the row stays unchanged and
/// no chapter is announced twice.
pub proof fn lemma_second_check_quiet(
    stored: SQLResultBoxnovel,
    fetched: SQLResultBoxnovel,
    updated: SQLResultBoxnovel,
)
    requires
        updated.current@ == current_after_check(stored, fetched),
    ensures
        announced_links(updated, fetched) == Seq::<Seq<char>>::empty(),
        current_after_check(updated, fetched) == updated.current@,
{
    if announced_links(stored, fetched).len() == 0 {
        assert(announced_links(updated, fetched) == announced_links(stored, fetched));
        assert(announced_links(stored, fetched) =~= Seq::<Seq<char>>::empty());
    } else {
        lemma_no_repeat_after_update(updated, fetched);
    }
}


/// The new links are the page's links that were not stored, in the reverse of their page
/// order.
proof fn lemma_new_links_filtered_reversed(stored: Seq<Seq<char>>, fetched: Seq<Seq<char>>)
    ensures
        new_links(stored, fetched) == fetched.filter(|l: Seq<char>| !stored.contains(l)).reverse(),
    decreases fetched.len(),
{
    reveal(Seq::filter);
    let p = |l: Seq<char>| !stored.contains(l);
    if fetched.len() > 0 {
        lemma_new_links_filtered_reversed(stored, fetched.drop_last());
        let sub = fetched.drop_last().filter(p);
        if p(fetched.last()) {
            assert(sub.push(fetched.last()).reverse() =~= seq![fetched.last()] + sub.reverse());
        }
    } else {
        assert(fetched.filter(p).reverse() =~= Seq::<Seq<char>>::empty());
    }
}

/// A link is announced exactly when the page lists it and the stored row does not.
pub proof fn lemma_announced_exactly_unstored(
    stored: SQLResultBoxnovel,
    fetched: SQLResultBoxnovel,
    l: Seq<char>,
)
    ensures
        announced_links(stored, fetched).contains(l) <==> (words(fetched.current@).contains(l)
            && !words(stored.current@).contains(l)),
{
    lemma_new_links_members(words(stored.current@), words(fetched.current@), l);
}

/// The announced links are the page's links that the stored row lacks, taken in the
/// reverse of their page order: the page lists its newest chapter first, so the oldest
/// new chapter is announced first.
pub proof fn lemma_announced_oldest_first(stored: SQLResultBoxnovel, fetched: SQLResultBoxnovel)
    ensures
        announced_links(stored, fetched) == words(fetched.current@).filter(
            |l: Seq<char>| !words(stored.current@).contains(l),
        ).reverse(),
{
    lemma_new_links_filtered_reversed(words(stored.current@), words(fetched.current@));
}

} // verus!
