use vstd::prelude::*;
use vstd::string::*;

verus! {

/// Settings for the translation facility: where translation resources live
/// on disk, the locale to fall back to, and the resource files to load.
/// Loading these settings from configuration files or the process
/// environment is host glue and happens outside the library.
#[derive(Debug)]
pub struct TidosI18nConfig {
    pub resource_location: String,
    pub default_locale: String,
    pub resources: Vec<String>,
}

impl Default for TidosI18nConfig {
    /// The settings used when nothing is configured: resources under
    /// `translations`, falling back to `en-US`, with no resource files.
    fn default() -> (r: TidosI18nConfig)
        ensures
            r.resource_location@ == "translations"@,
            r.default_locale@ == "en-US"@,
            r.resources@ == Seq::<String>::empty(),
    {
        TidosI18nConfig {
            resource_location: "translations".to_owned(),
            default_locale: "en-US".to_owned(),
            resources: Vec::new(),
        }
    }
}

} // verus!
