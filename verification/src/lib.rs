//! The document model of the MDN build: URLs and locales, redirects, page kinds and
//! routes, titles and breadcrumbs, sidebars (JavaScript reference, WebExtension API,
//! curriculum, sub-page listings), link checking and the rewriting of rendered HTML,
//! splitting documents into sections, build issues and their positions, and the small
//! rules of the blog, the curriculum and the CSS information boxes. Every function
//! states its behaviour in its contract, and the contracts are proved.
pub mod text;
pub mod position_utils;
pub mod numbers;
pub mod sourcepos;
pub mod title;
pub mod ids;
pub mod locale;
pub mod page;
pub mod resolve;
pub mod redirects;
pub mod jsref;
pub mod docs_types;
pub mod json;
pub mod templates;
pub mod contributors;
pub mod curriculum;
pub mod issues;
pub mod sidebar;
pub mod blog;
pub mod data;
pub mod html;
pub mod subpages;
pub mod config;
pub mod css_info;
pub mod site;
pub mod history;
pub mod links;
pub mod sections;
pub mod webext;
pub mod parents;
pub mod rewrite;
pub mod curriculum_sidebar;
pub mod spa;
pub mod curriculum_page;
pub mod routes;
pub mod summary;
pub mod homepage;
pub mod default_api_sidebar;
pub mod apiref;
pub mod link_render;
pub mod sub_listing;
pub mod bubble_up;
pub mod css_computed;
pub mod code_blocks;
