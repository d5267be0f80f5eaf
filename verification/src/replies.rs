//! What the commands decide and what they answer.
use vstd::prelude::*;

use crate::ids::{decimal, guild_key, guild_key_text, lemma_decimal_zero, to_decimal};
use crate::scrape::{page_content, process_soup};
use crate::structures::SQLResultBoxnovel;
use crate::text::{join, join_strings, same_text, texts};

verus! {

/// The texts held by a reply.
pub open spec fn reply_text(r: Result<String, String>) -> Result<Seq<char>, Seq<char>> {
    match r {
        Ok(s) => Ok(s@),
        Err(s) => Err(s@),
    }
}

/// Where a command that removes or lists novels applies: every channel of a guild, or
/// one channel; each given by its id as stored.
pub enum Scope {
    Guild(String),
    Channel(String),
}

/// A command applies to the whole guild when its flag is `-g` and the message was sent
/// in a guild (whose stored id is then not `"0"`).
pub open spec fn wants_guild(flag: Seq<char>, guild: Option<u64>) -> bool {
    flag == "-g"@ && guild_key_text(guild) != seq!['0']
}

/// Where a `remove` or `check` command applies, given its flag (`"default"` when none
/// was given), the guild the message was sent in, if any, and its channel.
pub fn target_scope(flag: &str, guild: Option<u64>, channel: u64) -> (res: Scope)
    ensures
        wants_guild(flag@, guild) ==> (res matches Scope::Guild(g) && g@ == guild_key_text(guild)),
        !wants_guild(flag@, guild) ==> (res matches Scope::Channel(c) && c@ == decimal(
            channel as nat,
        )),
{
    let key = guild_key(guild);
    let zero = "0";
    let guild_flag = "-g";
    proof {
        reveal_strlit("0");
    }
    assert(zero@ =~= seq!['0']);
    if same_text(flag, guild_flag) && !same_text(key.as_str(), zero) {
        Scope::Guild(key)
    } else {
        Scope::Channel(to_decimal(channel))
    }
}

/// A command applies to the whole guild exactly when its flag is `-g` and the message
/// came from a guild, i.e. not from a direct message.
pub proof fn lemma_guild_scope(flag: Seq<char>, guild: Option<u64>)
    ensures
        wants_guild(flag, guild) <==> (flag == "-g"@ && (guild matches Some(g) && g != 0)),
{
    match guild {
        Some(g) => lemma_decimal_zero(g as nat),
        None => lemma_decimal_zero(0),
    }
}

/// The novels of the given rows.
pub open spec fn novel_names(rows: Seq<SQLResultBoxnovel>) -> Seq<Seq<char>> {
    rows.map_values(|r: SQLResultBoxnovel| r.novel@)
}

/// The reply listing linked novels: the novels of the rows joined by `", "`, or the
/// `unlinked` message when the rows could not be read or that list is empty.
pub open spec fn listing(rows: Option<Seq<SQLResultBoxnovel>>, unlinked: Seq<char>) -> Result<
    Seq<char>,
    Seq<char>,
> {
    match rows {
        None => Err(unlinked),
        Some(r) => {
            let names = join(novel_names(r), ", "@);
            if names.len() == 0 {
                Err(unlinked)
            } else {
                Ok(names)
            }
        },
    }
}

/// The rows' views, when there are rows.
pub open spec fn rows_view(rows: Option<&Vec<SQLResultBoxnovel>>) -> Option<Seq<SQLResultBoxnovel>> {
    match rows {
        Some(r) => Some(r@),
        None => None,
    }
}

fn novel_listing(rows: Option<&Vec<SQLResultBoxnovel>>, unlinked: &str) -> (res: Result<
    String,
    String,
>)
    ensures
        reply_text(res) == listing(rows_view(rows), unlinked@),
{
    let rows = match rows {
        Some(r) => r,
        None => {
            return Err(unlinked.to_owned());
        },
    };
    let mut names: Vec<String> = Vec::new();
    let n = rows.len();
    let mut i: usize = 0;
    while i < n
        invariant
            n == rows@.len(),
            i <= n,
            texts(names@) == novel_names(rows@).take(i as int),
        decreases n - i,
    {
        let ghost before = names@;
        names.push(rows[i].novel.clone());
        assert(texts(names@) =~= texts(before).push(rows@[i as int].novel@));
        assert(novel_names(rows@).take(i + 1) =~= novel_names(rows@).take(i as int).push(
            rows@[i as int].novel@,
        ));
        i = i + 1;
    }
    assert(novel_names(rows@).take(n as int) =~= novel_names(rows@));
    let joined = join_strings(&names, ", ");
    if joined.unicode_len() == 0 {
        Err(unlinked.to_owned())
    } else {
        Ok(joined)
    }
}

/// The reply to `check` for one channel, given the rows linked to it (nothing when they
/// could not be read).
pub fn retrieve_handle_channel(rows: Option<&Vec<SQLResultBoxnovel>>) -> (res: Result<
    String,
    String,
>)
    ensures
        reply_text(res) == listing(rows_view(rows), "No novels are linked to this channel"@),
{
    novel_listing(rows, "No novels are linked to this channel")
}

/// The reply to `check -g` for a guild, given the rows linked to it (nothing when they
/// could not be read).
pub fn retrieve_handle_guild(rows: Option<&Vec<SQLResultBoxnovel>>) -> (res: Result<
    String,
    String,
>)
    ensures
        reply_text(res) == listing(rows_view(rows), "No novels are linked to this guild"@),
{
    novel_listing(rows, "No novels are linked to this guild")
}

/// The reply to removing the novel `link` from channel `c_id`, given whether the removal
/// was carried out.
pub fn delete_handle_channel(link: &str, c_id: &str, removed: bool) -> (res: Result<
    String,
    String,
>)
    ensures
        removed ==> reply_text(res) == Ok::<Seq<char>, Seq<char>>(
            "<"@ + link@ + "> has been removed from <#"@ + c_id@ + ">"@,
        ),
        !removed ==> reply_text(res) == Err::<Seq<char>, Seq<char>>(
            "Failed to remove <"@ + link@ + "> from <#"@ + c_id@
                + ">. Novel not found linked to this channel"@,
        ),
{
    let mut msg = String::new();
    if removed {
        msg.append("<");
        msg.append(link);
        msg.append("> has been removed from <#");
        msg.append(c_id);
        msg.append(">");
        Ok(msg)
    } else {
        msg.append("Failed to remove <");
        msg.append(link);
        msg.append("> from <#");
        msg.append(c_id);
        msg.append(">. Novel not found linked to this channel");
        Err(msg)
    }
}

/// The reply to removing the novel `link` from every channel of a guild, given whether
/// the removal was carried out.
pub fn delete_handle_guild(link: &str, removed: bool) -> (res: Result<String, String>)
    ensures
        removed ==> reply_text(res) == Ok::<Seq<char>, Seq<char>>(
            "<"@ + link@ + "> has been removed from from all channels"@,
        ),
        !removed ==> reply_text(res) == Err::<Seq<char>, Seq<char>>(
            "Failed to remove <"@ + link@
                + "> from all channels. Novel not found linked to any channel"@,
        ),
{
    let mut msg = String::new();
    if removed {
        msg.append("<");
        msg.append(link);
        msg.append("> has been removed from from all channels");
        Ok(msg)
    } else {
        msg.append("Failed to remove <");
        msg.append(link);
        msg.append("> from all channels. Novel not found linked to any channel");
        Err(msg)
    }
}

/// The reply when a novel's page has no readable title or chapter list.
pub fn unlocated_reply() -> (res: String)
    ensures
        res@ == "Unable to locate chapters"@,
{
    "Unable to locate chapters".to_owned()
}

/// The row to store when the novel `link` is added to channel `c_id` of guild `g_id`,
/// given the novel's page as fetched (or the error that fetching it gave); otherwise the
/// reply to give.
pub fn initial_handle(page: Result<String, String>, link: String, c_id: String, g_id: String) -> (res:
    Result<SQLResultBoxnovel, String>)
    ensures
        page matches Err(e) ==> (res matches Err(m) && m@ == "Invalid link provided ["@ + e@
            + "]"@),
        page matches Ok(html) ==> match page_content(html@) {
            None => (res matches Err(m) && m@ == "Unable to locate chapters"@),
            Some((title, current)) => (res matches Ok(row) && row.title@ == title
                && row.current@ == current && row.novel == link && row.channel_id == c_id
                && row.guild_id == g_id),
        },
{
    match page {
        Err(e) => {
            let mut msg = String::new();
            msg.append("Invalid link provided [");
            msg.append(e.as_str());
            msg.append("]");
            Err(msg)
        },
        Ok(html) => match process_soup(html.as_str(), link, c_id, g_id) {
            Some(row) => Ok(row),
            None => Err(unlocated_reply()),
        },
    }
}

/// The reply to adding a novel, given the outcome of storing its row (the number of rows
/// stored, or the storage error as text).
pub fn added_reply(stored: Result<u64, String>) -> (res: Result<String, String>)
    ensures
        stored is Ok ==> reply_text(res) == Ok::<Seq<char>, Seq<char>>("Success"@),
        stored matches Err(e) ==> reply_text(res) == Err::<Seq<char>, Seq<char>>(e@),
{
    match stored {
        Ok(_) => Ok("Success".to_owned()),
        Err(e) => Err(e),
    }
}


/// A joined list is at least as long as each of its items.
proof fn lemma_join_holds_items(list: Seq<Seq<char>>, sep: Seq<char>, i: int)
    requires
        0 <= i < list.len(),
    ensures
        join(list, sep).len() >= list[i].len(),
    decreases list.len(),
{
    if list.len() > 1 && i < list.len() - 1 {
        lemma_join_holds_items(list.drop_last(), sep, i);
        assert(list.drop_last()[i] == list[i]);
    }
}

/// When some linked novel has a nonempty link, the listing is that of all the rows'
/// novels joined by `", "`; the "no novels" reply comes only when the rows could not be
/// read or their joined list is empty.
pub proof fn lemma_listing_of_linked_novels(rows: Seq<SQLResultBoxnovel>, unlinked: Seq<char>, i: int)
    requires
        0 <= i < rows.len(),
        rows[i].novel@.len() > 0,
    ensures
        listing(Some(rows), unlinked) == Ok::<Seq<char>, Seq<char>>(
            join(novel_names(rows), ", "@),
        ),
{
    assert(novel_names(rows)[i] == rows[i].novel@);
    lemma_join_holds_items(novel_names(rows), ", "@, i);
}

/// The "no novels" reply is given only when the rows could not be read or hold no text
/// to list.
pub proof fn lemma_unlinked_only_when_empty(
    rows: Option<Seq<SQLResultBoxnovel>>,
    unlinked: Seq<char>,
)
    ensures
        listing(rows, unlinked) is Err ==> (rows is None || forall|i: int|
            0 <= i < rows->0.len() ==> (#[trigger] rows->0[i]).novel@.len() == 0),
{
    if rows is Some && listing(rows, unlinked) is Err {
        let r = rows->0;
        assert forall|i: int| 0 <= i < r.len() implies (#[trigger] r[i]).novel@.len() == 0 by {
            if r[i].novel@.len() > 0 {
                lemma_listing_of_linked_novels(r, unlinked, i);
            }
        }
    }
}

} // verus!
