use boxnovel::replies::{
    added_reply, delete_handle_channel, delete_handle_guild, initial_handle, retrieve_handle_channel,
    retrieve_handle_guild, target_scope, unlocated_reply, Scope,
};
use boxnovel::scrape::{chapter_links, clear, process_soup, remove_breaks, CHAPTER_LIMIT};
use boxnovel::structures::SQLResultBoxnovel;
use boxnovel::updates::{new_chapters, plan_announcements, stored_after_check, UpdateError};

fn row(channel: &str, novel: &str, current: &str) -> SQLResultBoxnovel {
    SQLResultBoxnovel {
        guild_id: "10".to_string(),
        channel_id: channel.to_string(),
        title: "Solo Leveling".to_string(),
        novel: novel.to_string(),
        current: current.to_string(),
    }
}

fn page(title: &str, links: &[&str]) -> String {
    let mut html = String::from("<html><body><div class=\"post-title\"><h1>");
    html.push_str(title);
    html.push_str("</h1></div><ul class=\"main\">");
    for l in links {
        html.push_str("<li class=\"wp-manga-chapter\"><a href=\"");
        html.push_str(l);
        html.push_str("\">Chapter</a></li>");
    }
    html.push_str("</ul></body></html>");
    html
}

fn strings(v: &[&str]) -> Vec<String> {
    v.iter().map(|s| s.to_string()).collect()
}

#[test]
fn scope_guild_only_with_flag_in_guild() {
    assert!(matches!(target_scope("-g", Some(55), 7), Scope::Guild(g) if g == "55"));
    assert!(matches!(target_scope("-g", None, 7), Scope::Channel(c) if c == "7"));
    assert!(matches!(target_scope("-g", Some(0), 7), Scope::Channel(c) if c == "7"));
    assert!(matches!(target_scope("default", Some(55), 7), Scope::Channel(c) if c == "7"));
    assert!(matches!(target_scope("-x", Some(55), 7), Scope::Channel(c) if c == "7"));
}

#[test]
fn listing_replies() {
    let rows = vec![row("7", "https://a", ""), row("7", "https://b", "")];
    assert_eq!(retrieve_handle_channel(Some(&rows)), Ok("https://a, https://b".to_string()));
    assert_eq!(retrieve_handle_guild(Some(&rows)), Ok("https://a, https://b".to_string()));
    assert_eq!(
        retrieve_handle_channel(Some(&vec![])),
        Err("No novels are linked to this channel".to_string())
    );
    assert_eq!(retrieve_handle_channel(None), Err("No novels are linked to this channel".to_string()));
    assert_eq!(retrieve_handle_guild(Some(&vec![])), Err("No novels are linked to this guild".to_string()));
    assert_eq!(retrieve_handle_guild(None), Err("No novels are linked to this guild".to_string()));
}

#[test]
fn delete_replies() {
    assert_eq!(
        delete_handle_channel("https://a", "7", true),
        Ok("<https://a> has been removed from <#7>".to_string())
    );
    assert_eq!(
        delete_handle_channel("https://a", "7", false),
        Err("Failed to remove <https://a> from <#7>. Novel not found linked to this channel".to_string())
    );
    assert_eq!(
        delete_handle_guild("https://a", true),
        Ok("<https://a> has been removed from from all channels".to_string())
    );
    assert_eq!(
        delete_handle_guild("https://a", false),
        Err("Failed to remove <https://a> from all channels. Novel not found linked to any channel"
            .to_string())
    );
}

#[test]
fn added_replies() {
    assert_eq!(added_reply(Ok(1)), Ok("Success".to_string()));
    assert_eq!(added_reply(Err("disk full".to_string())), Err("disk full".to_string()));
    assert_eq!(unlocated_reply(), "Unable to locate chapters");
}

#[test]
fn clear_removes_breaks_and_space_after_punctuation() {
    assert_eq!(remove_breaks("\n\ta\tb\n"), "ab");
    assert_eq!(clear("\n\tSolo Leveling\n"), "Solo Leveling");
    assert_eq!(clear("Hello,  World"), "Hello World");
    assert_eq!(clear("My  Novel "), "MyNovel ");
    assert_eq!(clear("Foo"), "Foo");
    assert_eq!(clear("a!\u{3000}b? c"), "abc");
    assert_eq!(clear("x- - y"), "xy");
}

#[test]
fn chapter_links_cases() {
    let anchors = vec![
        Some(Some("https://x/3".to_string())),
        None,
        Some(Some("https://x/2".to_string())),
    ];
    assert_eq!(chapter_links(&anchors), Some("https://x/3 https://x/2".to_string()));
    let missing = vec![Some(Some("https://x/3".to_string())), Some(None)];
    assert_eq!(chapter_links(&missing), None);
    assert_eq!(chapter_links(&vec![]), Some(String::new()));
    let many: Vec<Option<Option<String>>> =
        (0..40).map(|i| Some(Some(format!("https://x/{}", i)))).collect();
    let joined = chapter_links(&many).unwrap();
    assert_eq!(joined.split(' ').count(), CHAPTER_LIMIT);
    assert!(joined.ends_with("https://x/29"));
    let mut late_missing = many.clone();
    late_missing[35] = Some(None);
    assert!(chapter_links(&late_missing).is_some());
}

#[test]
fn process_soup_reads_title_and_links() {
    let html = page("\n\tSolo Leveling\n", &["https://x/ch-3", "https://x/ch-2", "https://x/ch-1"]);
    let r = process_soup(&html, "https://x".to_string(), "7".to_string(), "10".to_string()).unwrap();
    assert_eq!(r.title, "Solo Leveling");
    assert_eq!(r.current, "https://x/ch-3 https://x/ch-2 https://x/ch-1");
    assert_eq!(r.novel, "https://x");
    assert_eq!(r.channel_id, "7");
    assert_eq!(r.guild_id, "10");
}

#[test]
fn process_soup_without_title_or_href_fails() {
    let no_title = "<html><body><ul><li class=\"wp-manga-chapter\"><a href=\"u\">c</a></li></ul></body></html>";
    assert!(process_soup(no_title, "l".to_string(), "7".to_string(), "1".to_string()).is_none());
    let no_href = "<html><body><div class=\"post-title\">T</div><ul><li class=\"wp-manga-chapter\"><a>c</a></li></ul></body></html>";
    assert!(process_soup(no_href, "l".to_string(), "7".to_string(), "1".to_string()).is_none());
}

#[test]
fn process_soup_skips_entries_without_anchor_and_matches_class_lists() {
    let html = "<div class=\"post-title big\">Title</div><li class=\"wp-manga-chapter new\"><a href=\"u2\">c</a></li><li class=\"wp-manga-chapter\">no link</li><li class=\"other\"><a href=\"z\">c</a></li><li class=\"wp-manga-chapter\"><a href=\"u1\">c</a></li>";
    let r = process_soup(html, "l".to_string(), "7".to_string(), "1".to_string()).unwrap();
    assert_eq!(r.title, "Title");
    assert_eq!(r.current, "u2 u1");
}

#[test]
fn initial_handle_cases() {
    let html = page("Novel", &["https://x/2", "https://x/1"]);
    let r = initial_handle(Ok(html), "https://x".to_string(), "7".to_string(), "10".to_string()).unwrap();
    assert_eq!(r.current, "https://x/2 https://x/1");
    assert_eq!(r.title, "Novel");
    let e = initial_handle(Err("timeout".to_string()), "bad".to_string(), "7".to_string(), "10".to_string());
    assert_eq!(e.err(), Some("Invalid link provided [timeout]".to_string()));
    let e = initial_handle(Ok("<p>nothing</p>".to_string()), "l".to_string(), "7".to_string(), "10".to_string());
    assert_eq!(e.err(), Some("Unable to locate chapters".to_string()));
}

#[test]
fn new_chapters_are_unstored_links_oldest_first() {
    let stored = strings(&["c3", "c2", "c1"]);
    let fetched = strings(&["c5", "c4", "c3", "c2", "c1"]);
    assert_eq!(new_chapters(&stored, &fetched), strings(&["c4", "c5"]));
    assert_eq!(new_chapters(&fetched, &fetched), Vec::<String>::new());
    assert_eq!(new_chapters(&vec![], &strings(&["a", "b"])), strings(&["b", "a"]));
}

#[test]
fn plan_announcements_cases() {
    let stored = row("7", "https://x", "c2 c1");
    let fetched = row("7", "https://x", "c4 c3 c2 c1");
    let plan = plan_announcements(&stored, &Some(fetched)).unwrap();
    assert_eq!(plan.len(), 2);
    assert_eq!(plan[0].channel_id, 7);
    assert_eq!(plan[0].title, "New Chapter for Solo Leveling");
    assert_eq!(plan[0].url, "c3");
    assert_eq!(plan[0].description, "c3");
    assert_eq!(plan[1].url, "c4");
    assert_eq!(plan_announcements(&stored, &None).err(), Some(UpdateError::ChaptersNotFound));
    let bad = row("general", "https://x", "c2 c1");
    let fetched = row("general", "https://x", "c3 c2 c1");
    assert_eq!(plan_announcements(&bad, &Some(fetched)).err(), Some(UpdateError::InvalidChannel));
    let same = row("general", "https://x", "c2 c1");
    assert_eq!(plan_announcements(&bad, &Some(same)).unwrap().len(), 0);
}

#[test]
fn no_repeat_after_update_law() {
    let stored = row("7", "https://x", "c1");
    let fetched = row("7", "https://x", "c2 c1");
    assert_eq!(plan_announcements(&stored, &Some(fetched)).unwrap().len(), 1);
    let updated = row("7", "https://x", "c2 c1");
    let again = row("7", "https://x", "c2 c1");
    assert_eq!(plan_announcements(&updated, &Some(again)).unwrap().len(), 0);
}

#[test]
fn scraped_links_read_back_law() {
    let html = page("Novel", &["https://x/3", "https://x/2", "https://x/1"]);
    let r = process_soup(&html, "l".to_string(), "7".to_string(), "1".to_string()).unwrap();
    assert_eq!(r.convert(), strings(&["https://x/3", "https://x/2", "https://x/1"]));
}

#[test]
fn stored_after_check_cases() {
    let stored = row("7", "https://x", "c2 c1");
    let fetched = row("7", "https://x", "c3 c2 c1");
    assert_eq!(stored_after_check(&stored, &fetched), Some("c3 c2 c1".to_string()));
    let same = row("7", "https://x", "c2  c1");
    assert_eq!(stored_after_check(&stored, &same), None);
}

#[test]
fn second_check_quiet_law() {
    let stored = row("7", "https://x", "c1");
    let fetched = row("7", "https://x", "c3 c2 c1");
    let current = stored_after_check(&stored, &fetched).unwrap();
    let updated = row("7", "https://x", &current);
    assert_eq!(plan_announcements(&updated, &Some(row("7", "https://x", "c3 c2 c1"))).unwrap().len(), 0);
    assert_eq!(stored_after_check(&updated, &fetched), None);
}
