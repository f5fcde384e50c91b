//! Web search, code search, documentation lookup, page scraping and site
//! crawling: the verified core of the `snarf` command line tool.

pub mod cache;
pub mod cli;
pub mod code_search;
pub mod config;
pub mod crawl;
pub mod docs;
pub mod duration;
pub mod error;
pub mod extract;
pub mod html;
pub mod output;
pub mod pages;
pub mod pattern;
pub mod scrape;
pub mod search;
pub mod sitemap;
pub mod status;
pub mod system;
pub mod text;
pub mod types;
pub mod updatecheck;
pub mod urlrewrite;
pub mod web;
