//! Tracking of web novels for chat channels: the records kept for each
//! linked novel, the scraping of a novel's page into such a record, the
//! detection of newly published chapters, and the replies given to users.
pub mod text;
pub mod ids;
pub mod structures;
pub mod scrape;
pub mod replies;
pub mod updates;
