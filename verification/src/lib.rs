//! Verschmelzer für erweiterbare XHTML-Seiten: die Motoren, die die Veha-Tags
//! (`<sql>`, `<row>`, `<column>`, `<md>`, `<toml>`, `<tera>`, `<vorlage>`,
//! `<sqlite>`, `<backend>`) in einem XHTML-Ereignisstrom ersetzen.

pub mod ereignis;
pub mod leser;
pub mod utils;
pub mod tagbau;
pub mod fehler;
pub mod tabular;
pub mod csvpilot;
pub mod press;
pub mod sqlite;
pub mod pfad;
pub mod binder;
pub mod preprocess;
pub mod qwen;
pub mod mdmotor;
pub mod tera_bruecke;
pub mod tomlmotor;
pub mod teramotor;
pub mod sql;
pub mod werte;
pub mod site;
pub mod beide;
pub mod gesetze;
