use arxiv_cli::arxiv::{split_paragraphs, ArxivClient, SearchPager};
use arxiv_cli::config::{Config, ConfigError};
use arxiv_cli::models::{Paper, Paragraph};

#[test]
fn test_build_search_url_simple() {
    let url = ArxivClient::build_search_url("LLM", 0, &None, &None);
    assert_eq!(url, "https://arxiv.org/search/?query=LLM&searchtype=all&source=header&start=0");
}

#[test]
fn test_build_search_url_with_pagination() {
    let url = ArxivClient::build_search_url("LLM", 50, &None, &None);
    assert_eq!(
        url,
        "https://arxiv.org/search/?query=LLM&searchtype=all&source=header&start=50"
    );
}

#[test]
fn test_build_search_url_with_dates() {
    let after = Some("2023-01-01".to_string());
    let before = Some("2023-12-31".to_string());
    let url = ArxivClient::build_search_url("LLM", 0, &after, &before);
    assert!(url.contains("date-filter_by=date_range"));
    assert!(url.contains("date-from_date=2023-01-01"));
    assert!(url.contains("date-to_date=2023-12-31"));
}

#[test]
fn test_build_search_url_with_before_only() {
    let before = Some("2023-10-13".to_string());
    let url = ArxivClient::build_search_url("conversational data analysis", 0, &None, &before);
    assert!(url.contains("date-filter_by=date_range"));
    assert!(url.contains("date-from_date=&"));
    assert!(url.contains("date-to_date=2023-10-13"));
    assert!(url.contains("terms-0-term=conversational%20data%20analysis"));
}

#[test]
fn test_build_fetch_url_id() {
    let url = ArxivClient::build_fetch_url("2512.04518");
    assert_eq!(url, "https://arxiv.org/abs/2512.04518");
}

#[test]
fn test_build_fetch_url_full_url() {
    let url = ArxivClient::build_fetch_url("https://arxiv.org/abs/2512.04518");
    assert_eq!(url, "https://arxiv.org/abs/2512.04518");
}

#[test]
fn test_config_default() {
    let config = Config::default();
    assert!(config.headless);
    assert!(config.browser_path.is_none());
}

#[test]
fn test_config_set_get() {
    let mut config = Config::default();

    config.set("headless", "false").unwrap();
    assert!(!config.headless);
    assert_eq!(config.get("headless").unwrap(), "false");

    config.set("browser_path", "/tmp/chrome").unwrap();
    assert_eq!(config.browser_path, Some("/tmp/chrome".to_string()));
    assert_eq!(config.get("browser_path").unwrap(), "/tmp/chrome");

    config.set("browser_path", "").unwrap();
    assert!(config.browser_path.is_none());
}

#[test]
fn test_config_unknown_key() {
    let mut config = Config::default();
    assert!(matches!(config.set("colour", "red"), Err(ConfigError::UnknownKey)));
    assert!(matches!(config.get("colour"), Err(ConfigError::UnknownKey)));
    assert!(matches!(config.set("headless", "maybe"), Err(ConfigError::InvalidValue)));
    assert!(config.headless);
}

#[test]
fn test_client_new_copies_config() {
    let mut config = Config::default();
    config.set("browser_path", "/opt/browser").unwrap();
    config.set("headless", "false").unwrap();
    let client = ArxivClient::new(&config);
    assert!(!client.headless);
    assert_eq!(client.browser_path, Some("/opt/browser".to_string()));
}

#[test]
fn test_pager_limit_truncates() {
    let mut pager = SearchPager::new(Some(3));
    let page: Vec<Paper> = (0..5).map(|i| sample_paper(&i.to_string())).collect();
    assert!(pager.wants_more());
    let more = pager.on_page(page);
    assert!(more);
    assert_eq!(pager.start, 50);
    assert!(!pager.wants_more());
    let out = pager.finish();
    assert_eq!(out.len(), 3);
    assert_eq!(out[0].id, "0");
    assert_eq!(out[2].id, "2");
}

#[test]
fn test_pager_empty_page_stops() {
    let mut pager = SearchPager::new(None);
    let more = pager.on_page(Vec::new());
    assert!(!more);
    assert_eq!(pager.start, 50);
    assert!(pager.finish().is_empty());
}

#[test]
fn test_split_paragraphs_numbers_and_trims() {
    let text = "  first paragraph \n\n\n\nsecond\nstill second\n\n   \n\nthird";
    let paras = split_paragraphs(text);
    assert_eq!(paras.len(), 3);
    assert_eq!(paras[0].number, "0001");
    assert_eq!(paras[0].text, "first paragraph");
    assert_eq!(paras[0].id, "");
    assert_eq!(paras[1].number, "0002");
    assert_eq!(paras[1].text, "second\nstill second");
    assert_eq!(paras[2].number, "0003");
    assert_eq!(paras[2].text, "third");
}

fn sample_paper(id: &str) -> Paper {
    Paper {
        id: id.to_string(),
        title: "T".to_string(),
        authors: vec!["A".to_string()],
        summary: "S".to_string(),
        published_date: "2024".to_string(),
        url: "http://u".to_string(),
        pdf_url: "http://p".to_string(),
        description_paragraphs: None,
    }
}

#[test]
fn test_paper_serialization() {
    let paper = Paper {
        id: "1".to_string(),
        title: "Test".to_string(),
        authors: vec!["Author".to_string()],
        summary: "Summary".to_string(),
        published_date: "2024".to_string(),
        url: "http://url".to_string(),
        pdf_url: "http://pdf".to_string(),
        description_paragraphs: Some(vec![Paragraph {
            number: "0001".to_string(),
            id: "".to_string(),
            text: "Text".to_string(),
        }]),
    };
    let json = arxiv_cli::arxiv::paper_json_string(&paper);
    assert!(json.contains("Test"));
    assert!(json.contains("description_paragraphs"));
}

#[test]
fn test_parse_papers_json_roundtrip() {
    let text = "[{\"id\":\"2401.0001\",\"title\":\"A Study\",\"authors\":[\"X\",\"Y\"],\"summary\":\"About things\",\"published_date\":\"2024-01-01\",\"url\":\"https://arxiv.org/abs/2401.0001\",\"pdf_url\":\"https://arxiv.org/pdf/2401.0001\"}]";
    let papers = arxiv_cli::arxiv::parse_papers_json(text).unwrap();
    assert_eq!(papers.len(), 1);
    assert_eq!(papers[0].id, "2401.0001");
    assert_eq!(papers[0].title, "A Study");
    assert_eq!(papers[0].authors, vec!["X".to_string(), "Y".to_string()]);
    assert_eq!(papers[0].summary, "About things");
    assert!(papers[0].description_paragraphs.is_none());
}

#[test]
fn test_parse_papers_json_rejects_bad_item() {
    assert!(arxiv_cli::arxiv::parse_papers_json("[{\"id\":\"1\"}]").is_none());
    assert!(arxiv_cli::arxiv::parse_papers_json("not json at all").is_none());
}
