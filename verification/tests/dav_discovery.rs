use vandelay::dav::discover::{
    advance, calendar_supports_only_vfreebusy, discover, listed_collections, DavKind, DavResponse,
    DiscoveryError, Multistatus, Progress, ResourceProps,
};
use vandelay::jmap::error::JmapError;

#[test]
fn well_known_uris_match_rfc_6764() {
    assert_eq!(DavKind::Caldav.well_known_uri(), Some("/.well-known/caldav"));
    assert_eq!(DavKind::Carddav.well_known_uri(), Some("/.well-known/carddav"));
    assert_eq!(DavKind::Webdav.well_known_uri(), None);
}

#[test]
fn home_set_body_only_for_calendar_addressbook() {
    assert!(DavKind::Caldav.home_set_body().is_some());
    assert!(DavKind::Carddav.home_set_body().is_some());
    assert!(DavKind::Webdav.home_set_body().is_none());
}

#[test]
fn item_resourcetype_matches_calendar_for_caldav() {
    let p = ResourceProps { is_calendar: true, ..Default::default() };
    assert!(DavKind::Caldav.item_resourcetype_matches(&p));
    assert!(!DavKind::Carddav.item_resourcetype_matches(&p));
}

#[test]
fn item_resourcetype_matches_collection_for_webdav() {
    let p = ResourceProps { is_collection: true, ..Default::default() };
    assert!(DavKind::Webdav.item_resourcetype_matches(&p));
}

fn listing(url: &str, responses: Vec<DavResponse>) -> Result<Multistatus, JmapError> {
    Ok(Multistatus { final_url: url.to_owned(), self_href: None, responses })
}

#[test]
fn a_calendar_is_found_through_principal_and_home_set() {
    let mut progress = discover(DavKind::Caldav, "https://dav.example.test/");
    let mut asked: Vec<String> = Vec::new();
    loop {
        match progress {
            Progress::Ask(search, request) => {
                asked.push(format!("{} {}", request.depth, request.url));
                assert!(asked.len() < 20, "{asked:?}");
                let reply = if request.depth == 0 {
                    let props = ResourceProps {
                        current_user_principal: Some("/p/jane/".to_owned()),
                        calendar_home_set: Some("/c/jane/".to_owned()),
                        ..Default::default()
                    };
                    listing(&request.url, vec![DavResponse { href: "/".to_owned(), props }])
                } else if request.url == "https://dav.example.test/c/jane/" {
                    let props = ResourceProps {
                        is_collection: true,
                        is_calendar: true,
                        ..Default::default()
                    };
                    let href = "/c/jane/work/".to_owned();
                    listing(&request.url, vec![DavResponse { href, props }])
                } else {
                    listing(&request.url, Vec::new())
                };
                progress = advance(search, reply);
            }
            Progress::Found(found) => {
                assert_eq!(found.home_set_url, "https://dav.example.test/c/jane/");
                assert_eq!(found.collections.len(), 1);
                assert_eq!(found.collections[0].url, "https://dav.example.test/c/jane/work/");
                break;
            }
            Progress::Failed(e) => panic!("{}", e.message()),
        }
    }
    assert_eq!(asked[0], "1 https://dav.example.test/");
}

#[test]
fn a_search_that_fails_everywhere_ends_without_collections() {
    let mut p = discover(DavKind::Webdav, "https://dav.example.test/files/");
    let mut steps = 0;
    loop {
        match p {
            Progress::Ask(search, _) => {
                steps += 1;
                assert!(steps < 20);
                p = advance(
                    search,
                    Err(JmapError::HttpStatus { status: 404, body: String::new() }),
                );
            }
            Progress::Found(_) => panic!("nothing is there"),
            Progress::Failed(e) => {
                assert!(matches!(e, DiscoveryError::NotFound { .. }));
                break;
            }
        }
    }
}

#[test]
fn an_unreachable_server_ends_a_search() {
    match discover(DavKind::Carddav, "https://dav.example.test/") {
        Progress::Ask(search, _) => {
            let p = advance(search, Err(JmapError::Connect("refused".to_owned())));
            match p {
                Progress::Failed(DiscoveryError::Transport(e)) => {
                    assert_eq!(e.message(), "connection failure: refused");
                }
                _ => panic!("the search must end"),
            }
        }
        _ => panic!("a search begins with a question"),
    }
}

#[test]
fn a_calendar_of_free_times_alone_is_no_calendar_to_import() {
    let busy = ResourceProps {
        is_calendar: true,
        supported_components: vec!["VFREEBUSY".to_owned()],
        ..Default::default()
    };
    assert!(calendar_supports_only_vfreebusy(&busy));
    let both = ResourceProps {
        is_calendar: true,
        supported_components: vec!["VFREEBUSY".to_owned(), "VEVENT".to_owned()],
        ..Default::default()
    };
    assert!(!calendar_supports_only_vfreebusy(&both));
    let listing = Multistatus {
        final_url: "https://dav.example.test/c/".to_owned(),
        self_href: None,
        responses: vec![
            DavResponse { href: "/c/busy/".to_owned(), props: busy },
            DavResponse { href: "/c/work/".to_owned(), props: both },
        ],
    };
    let r = listed_collections(DavKind::Caldav, "https://dav.example.test/c/", listing);
    match r {
        Ok(found) => {
            assert_eq!(found.len(), 1);
            assert_eq!(found[0].href, "/c/work/");
        }
        Err(m) => panic!("{m}"),
    }
}

#[test]
fn a_discovery_error_says_where_nothing_was_found() {
    let e = DiscoveryError::NotFound { url: "https://x.test/".to_owned() };
    assert!(e.message().contains("https://x.test/"));
}

#[test]
fn the_first_bad_href_of_a_listing_is_reported() {
    let calendar = || ResourceProps { is_calendar: true, ..Default::default() };
    let listing = Multistatus {
        final_url: "https://dav.example.test/c/".to_owned(),
        self_href: None,
        responses: vec![
            DavResponse { href: "/c/work/".to_owned(), props: calendar() },
            DavResponse { href: "https://[".to_owned(), props: calendar() },
            DavResponse { href: "https://x:99999/".to_owned(), props: calendar() },
        ],
    };
    let r = listed_collections(DavKind::Caldav, "https://dav.example.test/c/", listing);
    match r {
        Ok(_) => panic!("a bad href is no URL"),
        Err(m) => assert_eq!(m, url::Url::parse("https://[").unwrap_err().to_string()),
    }
}
