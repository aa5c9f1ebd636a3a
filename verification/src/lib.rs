pub mod date;
pub mod md;
pub mod page;
pub mod page_entry;
pub mod rss;
pub mod site_pages;
pub mod strutil;
pub mod templates;
