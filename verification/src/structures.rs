//! The records kept for novels and their chapters.
use vstd::prelude::*;

use crate::text::{is_word, lemma_words_of_spaced, spaced, split_words, texts, words};

verus! {

/// One chapter of a novel: its title and the link to its page.
#[derive(Debug)]
pub struct Chapter {
    pub title: String,
    pub link: String,
}

impl Chapter {
    pub fn new(title: String, link: String) -> (c: Chapter)
        ensures
            c.title == title,
            c.link == link,
    {
        Chapter { title, link }
    }
}

/// A novel: its title, the link to its page and its chapters.
#[derive(Debug)]
pub struct Novel {
    pub title: String,
    pub link: String,
    pub chapters: Vec<Chapter>,
}

impl Novel {
    pub fn new(title: String, link: String, chapters: Vec<Chapter>) -> (n: Novel)
        ensures
            n.title == title,
            n.link == link,
            n.chapters@ == chapters@,
    {
        Novel { title, link, chapters }
    }

    /// The links of the chapters, in order.
    pub open spec fn links(&self) -> Seq<Seq<char>> {
        self.chapters@.map_values(|c: Chapter| c.link@)
    }

    /// The links of all chapters, in order, each followed by one space.
    pub fn convert(&self) -> (res: String)
        ensures
            res@ == spaced(self.links()),
    {
        let mut res = String::new();
        let space = " ";
        proof {
            reveal_strlit(" ");
        }
        assert(space@ =~= seq![' ']);
        let n = self.chapters.len();
        let mut i: usize = 0;
        assert(self.links().take(0) =~= Seq::<Seq<char>>::empty());
        while i < n
            invariant
                n == self.chapters@.len(),
                space@ == seq![' '],
                i <= n,
                res@ == spaced(self.links().take(i as int)),
            decreases n - i,
        {
            assert(self.links().take(i + 1).drop_last() =~= self.links().take(i as int));
            res.append(self.chapters[i].link.as_str());
            res.append(space);
            i = i + 1;
        }
        assert(self.links().take(n as int) =~= self.links());
        res
    }
}

/// A novel linked to a chat channel, as one row of the table of linked novels:
/// the guild and channel it is linked in, its title, the link to its page, and the
/// links of its latest chapters separated by white space.
#[derive(Debug)]
pub struct SQLResultBoxnovel {
    pub guild_id: String,
    pub channel_id: String,
    pub title: String,
    pub novel: String,
    pub current: String,
}

impl SQLResultBoxnovel {
    /// The chapter links stored in this row, in order.
    pub fn convert(&self) -> (res: Vec<String>)
        ensures
            texts(res@) == words(self.current@),
    {
        split_words(self.current.as_str())
    }
}

/// A novel's chapter links, once stored as `Novel::convert` writes them, are read back
/// by `SQLResultBoxnovel::convert` as the same links in the same order, provided that
/// each link is nonempty and holds no white space.
pub proof fn lemma_stored_links_read_back(novel: Novel, row: SQLResultBoxnovel)
    requires
        forall|i: int| 0 <= i < novel.links().len() ==> is_word(#[trigger] novel.links()[i]),
        row.current@ == spaced(novel.links()),
    ensures
        words(row.current@) == novel.links(),
{
    lemma_words_of_spaced(novel.links());
}

} // verus!
