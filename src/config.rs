//! Application settings: icon providers and the interface language.
use vstd::prelude::*;

verus! {

/// `s` with every non-overlapping occurrence of `from`, taken from left to
/// right, replaced by `to`.
pub open spec fn replaced(s: Seq<char>, from: Seq<char>, to: Seq<char>) -> Seq<char>
    decreases s.len(),
{
    if s.len() == 0 {
        s
    } else if 0 < from.len() <= s.len() && s.subrange(0, from.len() as int) == from {
        to + replaced(s.subrange(from.len() as int, s.len() as int), from, to)
    } else {
        seq![s[0]] + replaced(s.subrange(1, s.len() as int), from, to)
    }
}

/// Relies on `str::replace`: all matches of `from`, found from left to right
/// without overlap, are replaced by `to`.
#[verifier::external_body]
pub(crate) fn replace_all(s: &str, from: &str, to: &str) -> (r: String)
    requires
        from@.len() > 0,
    ensures
        r@ == replaced(s@, from@, to@),
{
    s.replace(from, to)
}

/// The placeholder of a URL template that stands for the host name.
pub const DOMAIN_PLACEHOLDER: &'static str = "{domain}";

/// The icon URL for `domain` under `template`.
pub open spec fn icon_url(template: Seq<char>, domain: Seq<char>) -> Seq<char> {
    replaced(template, DOMAIN_PLACEHOLDER@, domain)
}

/// Fills the host name into an icon URL template.
pub fn fill_template(template: &str, domain: &str) -> (r: String)
    ensures
        r@ == icon_url(template@, domain@),
{
    proof {
        reveal_strlit("{domain}");
    }
    replace_all(template, DOMAIN_PLACEHOLDER, domain)
}

/// An icon provider.
#[derive(Clone, Debug)]
pub struct FaviconService {
    /// Display name.
    pub name: String,
    /// URL of the icon of a host, with `{domain}` where the host goes.
    pub url_template: String,
    /// Whether this is the provider chosen out of the box.
    pub is_default: bool,
}

/// The known icon providers and the one in use.
#[derive(Clone, Debug)]
pub struct FaviconServiceConfig {
    pub services: Vec<FaviconService>,
    pub current_service_index: usize,
}

impl FaviconServiceConfig {
    /// The provider in use is one of the list.
    pub open spec fn wf(&self) -> bool {
        self.current_service_index < self.services@.len()
    }
}

impl Default for FaviconServiceConfig {
    /// Google's icon service, in use, then DuckDuckGo's.
    fn default() -> (r: FaviconServiceConfig)
        ensures
            r.wf(),
            r.current_service_index == 0,
            r.services@.len() == 2,
            r.services@[0].name@ == "Google"@,
            r.services@[0].url_template@ == "https://www.google.com/s2/favicons?sz=64&domain={domain}"@,
            r.services@[0].is_default,
            r.services@[1].name@ == "DuckDuckGo"@,
            r.services@[1].url_template@ == "https://icons.duckduckgo.com/ip3/{domain}.ico"@,
            !r.services@[1].is_default,
    {
        let google = FaviconService {
            name: String::from_str("Google"),
            url_template: String::from_str("https://www.google.com/s2/favicons?sz=64&domain={domain}"),
            is_default: true,
        };
        let duck = FaviconService {
            name: String::from_str("DuckDuckGo"),
            url_template: String::from_str("https://icons.duckduckgo.com/ip3/{domain}.ico"),
            is_default: false,
        };
        let mut services: Vec<FaviconService> = Vec::new();
        services.push(google);
        services.push(duck);
        FaviconServiceConfig { services, current_service_index: 0 }
    }
}

/// The interface language.
#[derive(Clone, Debug)]
pub struct LanguageConfig {
    /// A locale name such as `en` or `zh-CN`.
    pub language: String,
}

impl Default for LanguageConfig {
    /// Simplified Chinese.
    fn default() -> (r: LanguageConfig)
        ensures
            r.language@ == "zh-CN"@,
    {
        LanguageConfig { language: String::from_str("zh-CN") }
    }
}

impl LanguageConfig {
    pub fn get_current_language(&self) -> (r: &str)
        ensures
            r@ == self.language@,
    {
        self.language.as_str()
    }

    pub fn set_language(&mut self, language: String)
        ensures
            final(self).language@ == language@,
    {
        self.language = language;
    }
}

/// All settings of the application.
#[derive(Clone, Debug)]
pub struct AppConfig {
    pub favicon_service: FaviconServiceConfig,
    pub language: LanguageConfig,
}

impl Default for AppConfig {
    fn default() -> (r: AppConfig)
        ensures
            r.favicon_service.wf(),
            r.favicon_service.current_service_index == 0,
            r.favicon_service.services@.len() == 2,
            r.favicon_service.services@[0].url_template@ == "https://www.google.com/s2/favicons?sz=64&domain={domain}"@,
            r.language.language@ == "zh-CN"@,
    {
        AppConfig { favicon_service: FaviconServiceConfig::default(), language: LanguageConfig::default() }
    }
}

/// `dir` followed by a separator and `name`.
pub open spec fn path_in(dir: Seq<char>, name: Seq<char>) -> Seq<char> {
    dir + "/"@ + name
}

/// `dir`, a separator and `name`.
pub fn join_path(dir: &str, name: &str) -> (r: String)
    ensures
        r@ == path_in(dir@, name@),
{
    let mut r = String::from_str(dir);
    r.append("/");
    r.append(name);
    r
}

impl AppConfig {
    /// The settings file inside the application directory `app_dir`.
    pub fn get_config_path(app_dir: &str) -> (r: String)
        ensures
            r@ == path_in(app_dir@, "config.json"@),
    {
        join_path(app_dir, "config.json")
    }

    /// The template of the provider in use.
    pub fn current_template(&self) -> (r: &String)
        requires
            self.favicon_service.wf(),
        ensures
            r@ == self.favicon_service.services@[self.favicon_service.current_service_index as int].url_template@,
    {
        &self.favicon_service.services[self.favicon_service.current_service_index].url_template
    }

    /// The icon URL of `domain` at the provider in use.
    pub fn get_favicon_url(&self, domain: &str) -> (r: String)
        requires
            self.favicon_service.wf(),
        ensures
            r@ == icon_url(
                self.favicon_service.services@[self.favicon_service.current_service_index as int].url_template@,
                domain@,
            ),
    {
        fill_template(self.current_template().as_str(), domain)
    }
}

} // verus!
