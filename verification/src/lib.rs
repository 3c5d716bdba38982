//! Verified core of the WebApps manager: icon discovery and ranking, image
//! header inspection, URL and locale helpers, and legacy desktop-entry parsing.

pub mod text;
pub mod image;
pub mod svg;
pub mod rank;
pub mod weburl;
pub mod htmldoc;
pub mod html;
pub mod download;
pub mod site;
pub mod http;
pub mod icons;
pub mod browser_url;
pub mod legacy;
pub mod validation;
pub mod shell;
pub mod browsers;
pub mod archive;
pub mod appfile;
pub mod journal;
