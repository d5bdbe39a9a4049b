//! Host side of a plugin-driven configuration parser.
//!
//! A sandboxed plugin pulls the characters of a configuration file one at a
//! time and reports what it reads as a tree of sections, which it builds
//! through handles into a table that the host owns. This library holds the
//! tree, the table protocol and the rules that keep the result a tree.
pub mod sections;
pub mod table;
pub mod plugins;
