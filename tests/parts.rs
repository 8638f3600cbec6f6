use browser_favicon_buddy::cache::get_cache_path;
use browser_favicon_buddy::config::{AppConfig, FaviconServiceConfig, LanguageConfig};
use browser_favicon_buddy::domain::extract_domain;
use browser_favicon_buddy::ftl::convert_yaml_to_ftl;
use browser_favicon_buddy::json::JsonValue;
use browser_favicon_buddy::fetch::{icon_payload, response_payload, FetchError};
use browser_favicon_buddy::links::extract_links;
use browser_favicon_buddy::locale::{get_locale_fallback_chain, get_supported_locales, locale_of_entry, match_supported_locale};

#[test]
fn domain_of_well_formed_urls() {
    assert_eq!(extract_domain("https://sub.example.com/path?q=1"), Some("sub.example.com".to_string()));
    assert_eq!(extract_domain("ftp://rms@example.com"), Some("example.com".to_string()));
    assert_eq!(extract_domain("HTTP://EXAMPLE.COM/"), Some("example.com".to_string()));
}

#[test]
fn domain_of_unresolvable_links() {
    assert_eq!(extract_domain("not a url"), None);
    assert_eq!(extract_domain("data:text/plain,Stuff"), None);
    assert_eq!(extract_domain(""), None);
}

#[test]
fn payload_encodes_body_and_type() {
    assert_eq!(icon_payload(Some("image/x-icon".to_string()), &[1, 2, 3]), "data:image/x-icon;base64,AQID");
    assert_eq!(icon_payload(None, b"hi"), "data:image/png;base64,aGk=");
    assert_eq!(icon_payload(None, &[]), "data:image/png;base64,");
}

#[test]
fn response_status_decides_outcome() {
    assert_eq!(response_payload(200, None, b"abc"), Ok("data:image/png;base64,YWJj".to_string()));
    assert_eq!(response_payload(299, Some("image/gif".to_string()), b""), Ok("data:image/gif;base64,".to_string()));
    assert_eq!(response_payload(404, None, b"abc"), Err(FetchError::Status(404)));
    assert_eq!(response_payload(199, None, b""), Err(FetchError::Status(199)));
    assert_eq!(response_payload(300, None, b""), Err(FetchError::Status(300)));
}

#[test]
fn links_in_document_order() {
    let doc = br#"<A HREF="https://a/">x</A> <a href="https://skip/">y</a> <A ICON="z" HREF='https://b/' ADD=1>w</A>"#.to_vec();
    let links = extract_links(&doc);
    assert_eq!(links.len(), 2);
    assert_eq!(links[0].href, b"https://a/".to_vec());
    assert_eq!(links[1].href, b"https://b/".to_vec());
    assert_eq!(&doc[links[0].start..links[0].end], br#"<A HREF="https://a/">"#);
    assert!(links[0].end <= links[1].start);
    assert_eq!(doc[links[1].end - 1], b'>');
    let spaced = br#"<A ADD=1 HREF =  'https://c/x' >"#.to_vec();
    let links = extract_links(&spaced);
    assert_eq!(links.len(), 1);
    assert_eq!(links[0].href, b"https://c/x".to_vec());
}

#[test]
fn favicon_url_fills_template() {
    let mut config = AppConfig::default();
    assert_eq!(config.get_favicon_url("example.com"), "https://www.google.com/s2/favicons?sz=64&domain=example.com");
    config.favicon_service.current_service_index = 1;
    assert_eq!(config.get_favicon_url("example.com"), "https://icons.duckduckgo.com/ip3/example.com.ico");
}

#[test]
fn default_services() {
    let c = FaviconServiceConfig::default();
    assert_eq!(c.services.len(), 2);
    assert_eq!(c.services[0].name, "Google");
    assert!(c.services[0].is_default);
    assert_eq!(c.services[1].name, "DuckDuckGo");
    assert_eq!(c.current_service_index, 0);
}

#[test]
fn language_setting() {
    let mut l = LanguageConfig::default();
    assert_eq!(l.get_current_language(), "zh-CN");
    l.set_language("en".to_string());
    assert_eq!(l.get_current_language(), "en");
}

#[test]
fn paths_under_app_dir() {
    assert_eq!(AppConfig::get_config_path("/home/u/.config/favicon-buddy"), "/home/u/.config/favicon-buddy/config.json");
    assert_eq!(get_cache_path("/d"), "/d/favicon_cache.json");
}

#[test]
fn locales_and_fallbacks() {
    assert_eq!(get_supported_locales(), vec!["en".to_string(), "zh-CN".to_string()]);
    assert_eq!(get_locale_fallback_chain("zh-CN"), vec!["zh-CN".to_string(), "zh".to_string()]);
    assert_eq!(get_locale_fallback_chain("en"), vec!["en".to_string(), "zh-CN".to_string()]);
    assert_eq!(get_locale_fallback_chain("en-US"), vec!["en-US".to_string(), "en".to_string(), "zh-CN".to_string()]);
}

#[test]
fn language_variable_matching() {
    assert_eq!(match_supported_locale("zh_CN.UTF-8:en_US:en"), Some("zh-CN".to_string()));
    assert_eq!(match_supported_locale("fr_FR:en_GB.UTF-8"), Some("en".to_string()));
    assert_eq!(match_supported_locale("fr_FR:de"), None);
    assert_eq!(match_supported_locale(""), None);
    assert_eq!(locale_of_entry("en_US.UTF-8"), Some("en".to_string()));
    assert_eq!(locale_of_entry("zh-TW"), None);
}

#[test]
fn translation_tree_to_messages() {
    let tree = JsonValue::Object(vec![
        ("_version".to_string(), JsonValue::Number("1".to_string())),
        ("found".to_string(), JsonValue::Str("Found".to_string())),
        (
            "menu".to_string(),
            JsonValue::Object(vec![
                ("save as$".to_string(), JsonValue::Str("Saved to %{path}".to_string())),
                ("n".to_string(), JsonValue::Number("3".to_string())),
            ]),
        ),
    ]);
    let mut out = String::from("# head\n");
    convert_yaml_to_ftl(&tree, "", &mut out);
    assert_eq!(out, "# head\nfound = Found\nmenu.save_as_ = Saved to { $path }\n");
}
