//! Job-posting collection for a set of Romanian employers: the verified
//! core. Each employer's module reads the postings out of what its careers
//! site answers (an HTML page or a JSON feed) and says which pages to ask
//! for; the shared modules model the values that the readers work on.

pub mod allianz;
pub mod auchan;
pub mod autonom;
pub mod bcr;
pub mod brd;
pub mod decathlon;
pub mod draexlmaier;
pub mod fedex;
pub mod generali;
pub mod hm;
pub mod kaufland;
pub mod linde;
pub mod medicover;
pub mod samsung;
pub mod template_post;
pub mod vodafone;
pub mod zentiva;

pub mod feed;
pub mod html;
pub mod job;
pub mod json;
pub mod paging;
pub mod pattern;
pub mod text;
pub mod transliterate;
