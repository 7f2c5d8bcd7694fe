use neocities_deploy::auth::Auth;
use neocities_deploy::client::{Client, ClientBuilderError};
use neocities_deploy::params::{
    Command, Config, LevelFilter, Params, ParamsError, Site, SiteError,
};

fn site(auth: &str, path: &str, proxy: Option<&str>) -> Site {
    Site {
        auth: Auth::from(auth),
        free_account: None,
        path: path.to_owned(),
        proxy: proxy.map(|p| p.to_owned()),
    }
}

/// A configuration of two sites, each behind a proxy.
fn config() -> Config {
    let mut config = Config::default();
    config.insert_site(
        "lorem.com".to_owned(),
        site("user:pass", "/path/to/lorem", Some("http://localhost:8080")),
    );
    config.insert_site(
        "ipsum.com".to_owned(),
        site("api_key", "/path/to/ipsum", Some("http://localhost:8081")),
    );
    config
}

fn params(sites: &[&str], verbose: Option<u8>, quiet: Option<u8>) -> Params {
    Params {
        config: None,
        sites: sites.iter().map(|s| s.to_string()).collect(),
        ignore_errors: false,
        verbose,
        quiet,
        command: Command::Deploy,
    }
}

#[test]
fn test_sites() {
    let config = config();
    assert_eq!(config.names(), vec!["lorem.com", "ipsum.com"]);
    let lorem = config.site("lorem.com").unwrap();
    let ipsum = config.site("ipsum.com").unwrap();
    assert!(lorem.auth == Auth::from("user:pass"));
    assert_eq!(lorem.path, "/path/to/lorem");
    assert_eq!(lorem.proxy, Some("http://localhost:8080".to_string()));
    assert!(ipsum.auth == Auth::from("api_key"));
    assert_eq!(ipsum.path, "/path/to/ipsum");
    assert_eq!(ipsum.proxy, Some("http://localhost:8081".to_string()));
}

#[test]
fn sites_default_to_all_in_their_order() {
    let config = config();
    let all = params(&[], None, None).sites(&config).unwrap();
    let names: Vec<&str> = all.iter().map(|s| s.0.as_str()).collect();
    assert_eq!(names, ["lorem.com", "ipsum.com"]);
    assert!(all[0].1 == site("user:pass", "/path/to/lorem", Some("http://localhost:8080")));
    assert!(all[1].1 == site("api_key", "/path/to/ipsum", Some("http://localhost:8081")));
}

#[test]
fn sites_follow_the_command_line() {
    let config = config();
    let picked = params(&["ipsum.com"], None, None).sites(&config).unwrap();
    assert_eq!(picked.len(), 1);
    assert_eq!(picked[0].0, "ipsum.com");
    assert_eq!(picked[0].1.path, "/path/to/ipsum");
    let twice = params(&["ipsum.com", "lorem.com", "ipsum.com"], None, None)
        .sites(&config)
        .unwrap();
    let names: Vec<&str> = twice.iter().map(|s| s.0.as_str()).collect();
    assert_eq!(names, ["ipsum.com", "lorem.com", "ipsum.com"]);
}

#[test]
fn site_that_is_not_configured_is_an_error() {
    let config = config();
    let result = params(&["lorem.com", "dolor.com", "sit.com"], None, None).sites(&config);
    assert!(result == Err(ParamsError::SiteNotFound("dolor.com".to_owned())));
    assert_eq!(
        ParamsError::SiteNotFound("dolor.com".to_owned()).to_text(),
        "Site not found: dolor.com"
    );
    let empty = Config::default();
    assert!(params(&[], None, None).sites(&empty) == Ok(vec![]));
    assert!(
        params(&["lorem.com"], None, None).sites(&empty)
            == Err(ParamsError::SiteNotFound("lorem.com".to_owned()))
    );
}

#[test]
fn config_keeps_the_order_of_insertion() {
    let mut config = config();
    assert!(config.has_site("lorem.com"));
    assert!(!config.has_site("dolor.com"));
    assert!(config.site("dolor.com").is_none());
    config.insert_site("dolor.com".to_owned(), site("k", "/d", None));
    // a site that is there keeps its place and takes the new settings
    config.insert_site("lorem.com".to_owned(), site("other:pw", "/new", None));
    assert_eq!(config.names(), vec!["lorem.com", "ipsum.com", "dolor.com"]);
    assert!(*config.site("lorem.com").unwrap() == site("other:pw", "/new", None));
    assert!(*config.site("ipsum.com").unwrap() == site("api_key", "/path/to/ipsum", Some("http://localhost:8081")));
    assert_eq!(Config::default().names(), Vec::<String>::new());
}

#[test]
fn api_key_replaces_the_credentials_in_place() {
    let mut config = config();
    config.set_api_key("lorem.com", "c6275ca833ac06c83926ccb00dff4c82".to_owned());
    assert_eq!(config.names(), vec!["lorem.com", "ipsum.com"]);
    let lorem = config.site("lorem.com").unwrap();
    assert!(lorem.auth == Auth::ApiKey("c6275ca833ac06c83926ccb00dff4c82".to_owned()));
    assert_eq!(lorem.path, "/path/to/lorem");
    assert_eq!(lorem.proxy, Some("http://localhost:8080".to_string()));
    assert_eq!(lorem.free_account, None);
    assert!(config.site("ipsum.com").unwrap().auth == Auth::from("api_key"));
}

#[test]
fn verbosity_counts_up_from_info() {
    let level = |v, q| params(&[], v, q).verbosity();
    assert_eq!(level(None, None), LevelFilter::Info);
    assert_eq!(level(Some(0), Some(0)), LevelFilter::Info);
    assert_eq!(level(Some(1), None), LevelFilter::Debug);
    assert_eq!(level(Some(2), None), LevelFilter::Trace);
    assert_eq!(level(Some(200), None), LevelFilter::Trace);
    assert_eq!(level(None, Some(1)), LevelFilter::Warn);
    assert_eq!(level(None, Some(2)), LevelFilter::Error);
    assert_eq!(level(None, Some(3)), LevelFilter::Off);
    assert_eq!(level(None, Some(4)), LevelFilter::Off);
    assert_eq!(level(Some(2), Some(2)), LevelFilter::Info);
    // the way up stops at 255, then the way down begins
    assert_eq!(level(Some(255), Some(255)), LevelFilter::Off);
    assert_eq!(level(Some(253), Some(251)), LevelFilter::Debug);
    assert_eq!(level(Some(252), Some(250)), LevelFilter::Trace);
}

#[test]
fn config_file_is_the_given_one_or_the_default() {
    let mut p = params(&[], None, None);
    assert_eq!(p.config_file(|| "/home/u/.config/app/config.toml".to_owned()), "/home/u/.config/app/config.toml");
    p.config = Some("/etc/sites.toml".to_owned());
    let mut asked = false;
    let path = p.config_file(|| {
        asked = true;
        "/default".to_owned()
    });
    assert_eq!(path, "/etc/sites.toml");
    assert!(!asked);
}

#[test]
fn client_of_a_site() {
    let lorem = site("username:password", "/path/to/lorem", Some("http://localhost:8080"));
    let client: Client = match lorem.build_client(Some("http://127.0.0.1:9".to_owned())) {
        Ok(client) => client,
        Err(_) => panic!("no client"),
    };
    let request = client.key();
    assert_eq!(request.url, "http://127.0.0.1:9/key");
    assert_eq!(request.headers[3].1, "Basic dXNlcm5hbWU6cGFzc3dvcmQ=");
    let plain = site("k", "/", None);
    match plain.build_client(None) {
        Ok(client) => assert_eq!(client.list().url, "https://neocities.org/api/list"),
        Err(_) => panic!("no client"),
    }
}

#[test]
fn site_with_a_bad_proxy_gives_no_client() {
    for proxy in ["ftp://localhost:21", "https://proxy.example.com", "gopher://x"] {
        let bad = site("k", "/", Some(proxy));
        match bad.build_client(None) {
            Err(SiteError::InvalidProxy(p)) => assert_eq!(p, proxy),
            _ => panic!("{} was taken", proxy),
        }
    }
    for proxy in ["http://localhost:8080", "localhost", "john:smith@proxy.example.com:8000"] {
        assert!(site("k", "/", Some(proxy)).build_client(None).is_ok());
    }
    assert!(SiteError::Client(ClientBuilderError::UninitializedField("auth"))
        != SiteError::InvalidProxy("x".to_owned()));
}
