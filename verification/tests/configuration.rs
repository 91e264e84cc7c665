use httpd::config::{
    parse_close_block, parse_directive, parse_open_block, parse_server_config, parse_virtual_host,
    Directive,
};
use httpd::host::Host;
use httpd::pool::{is_overloaded, pool_size};

const TEXT: &[u8] = b"Listen 8080\nCacheSize 64\n\n<VirtualHost *:8080>\n  ServerName example.local\n  DocumentRoot /srv/www\n</VirtualHost>\n<VirtualHost>\nServerName other.local\nDocumentRoot /srv/other\n</VirtualHost>\n";

#[test]
fn reads_directives_and_virtual_hosts() {
    let config = parse_server_config(TEXT).unwrap();
    assert_eq!(config.directives.len(), 2);
    assert_eq!(config.directives.get(Directive::ListenPort), Some(&b"8080".to_vec()));
    assert_eq!(config.directives.get(Directive::CacheSize), Some(&b"64".to_vec()));
    assert_eq!(config.virtual_hosts.len(), 2);
    assert_eq!(
        config.virtual_hosts[0].directives.get(Directive::ServerName),
        Some(&b"example.local".to_vec())
    );
    assert_eq!(
        config.virtual_hosts[0].directives.get(Directive::DocumentRoot),
        Some(&b"/srv/www".to_vec())
    );
    assert_eq!(
        config.virtual_hosts[1].directives.get(Directive::ServerName),
        Some(&b"other.local".to_vec())
    );
    assert_eq!(config.listen_port().unwrap(), &b"8080".to_vec());
}

#[test]
fn empty_text_is_an_empty_configuration() {
    let config = parse_server_config(b"").unwrap();
    assert_eq!(config.directives.len(), 0);
    assert_eq!(config.virtual_hosts.len(), 0);
    assert_eq!(
        config.listen_port().unwrap_err().message,
        "Config did not include a ListenPort entry"
    );
    let config = parse_server_config(b"\n\n\n").unwrap();
    assert_eq!(config.directives.len(), 0);
}

#[test]
fn unknown_directives_and_blocks_are_errors() {
    let message = "Could not parse file content into Apache-style configuration file";
    assert_eq!(parse_server_config(b"KeepAlive On\n").unwrap_err().message, message);
    assert_eq!(parse_server_config(b"Listen 80").unwrap_err().message, message);
    assert_eq!(
        parse_server_config(b"<Directory />\n</Directory>\n").unwrap_err().message,
        message
    );
    assert_eq!(
        parse_server_config(b"<VirtualHost>\nServerName a\n").unwrap_err().message,
        message
    );
    assert_eq!(
        parse_server_config(b"<VirtualHost>\nBogus a\n</VirtualHost>\n").unwrap_err().message,
        message
    );
    assert_eq!(parse_server_config(b"Listen\n").unwrap_err().message, message);
}

#[test]
fn later_directive_replaces_earlier_one() {
    let config = parse_server_config(b"Listen 80\nThreadPoolSize 4\nListen 81\n").unwrap();
    assert_eq!(config.directives.len(), 2);
    assert_eq!(config.directives.get(Directive::ListenPort), Some(&b"81".to_vec()));
    assert_eq!(config.directives.entry(0).0, Directive::ListenPort);
}

#[test]
fn directive_lines_are_read_from_the_front() {
    let ((directive, value), rest) = parse_directive(b"  DocumentRoot /a b \nnext").unwrap();
    assert_eq!(directive, Directive::DocumentRoot);
    assert_eq!(value, b"/a b".to_vec());
    assert_eq!(rest, b"next");
    assert!(parse_directive(b"Listen 80").is_err());
    assert!(parse_directive(b"Listen\n").is_err());
    assert!(parse_directive(b"listen 80\n").is_err());
    assert!(parse_directive(b"\n").is_err());
}

#[test]
fn directive_keywords() {
    assert_eq!(Directive::from_str(b"CacheSize"), Ok(Directive::CacheSize));
    assert_eq!(Directive::from_str(b"DocumentRoot"), Ok(Directive::DocumentRoot));
    assert_eq!(Directive::from_str(b"Listen"), Ok(Directive::ListenPort));
    assert_eq!(Directive::from_str(b"ServerName"), Ok(Directive::ServerName));
    assert_eq!(Directive::from_str(b"ThreadPoolSize"), Ok(Directive::ThreadPoolSize));
    assert_eq!(Directive::from_str(b"ListenPort"), Err(()));
    assert_eq!(Directive::from_str(b""), Err(()));
}

#[test]
fn block_lines() {
    assert_eq!(parse_open_block(b"VirtualHost", b"<VirtualHost>\nx"), Ok(((), &b"x"[..])));
    assert_eq!(parse_open_block(b"VirtualHost", b"<VirtualHost *:80>\n"), Ok(((), &b""[..])));
    assert_eq!(parse_open_block(b"VirtualHost", b"<VirtualHost\n"), Err(()));
    assert_eq!(parse_open_block(b"VirtualHost", b" <VirtualHost>\n"), Err(()));
    assert_eq!(parse_open_block(b"VirtualHost", b"<VirtualHost>"), Err(()));
    assert_eq!(parse_open_block(b"VirtualHost", b"</VirtualHost>\n"), Err(()));
    assert_eq!(parse_close_block(b"VirtualHost", b"</VirtualHost>\nx"), Ok(((), &b"x"[..])));
    assert_eq!(parse_close_block(b"VirtualHost", b"<VirtualHost>\n"), Err(()));
    assert_eq!(parse_close_block(b"VirtualHost", b"</VirtualHos>\n"), Err(()));
}

#[test]
fn virtual_host_block() {
    let (host, rest) =
        parse_virtual_host(b"<VirtualHost>\nServerName a\nServerName b\n</VirtualHost>\nListen 1\n").unwrap();
    assert_eq!(host.directives.len(), 1);
    assert_eq!(host.directives.get(Directive::ServerName), Some(&b"b".to_vec()));
    assert_eq!(rest, b"Listen 1\n");
    let (host, _) = parse_virtual_host(b"<VirtualHost>\n</VirtualHost>\n").unwrap();
    assert_eq!(host.directives.len(), 0);
    assert!(parse_virtual_host(b"<VirtualHost>\n\n</VirtualHost>\n").is_err());
}

#[test]
fn pool_size_is_the_directive_or_one() {
    assert_eq!(pool_size(&parse_server_config(b"ThreadPoolSize 8\n").unwrap()).unwrap(), 8);
    assert_eq!(pool_size(&parse_server_config(b"Listen 80\n").unwrap()).unwrap(), 1);
    assert_eq!(pool_size(&parse_server_config(b"ThreadPoolSize 0\n").unwrap()).unwrap(), 0);
    assert_eq!(
        pool_size(&parse_server_config(b"ThreadPoolSize many\n").unwrap()).unwrap_err().message,
        "Could not parse ThreadPoolSize"
    );
    assert!(is_overloaded(0));
    assert!(!is_overloaded(1));
}

#[test]
fn cloned_configuration_serves_a_router() {
    let config = parse_server_config(TEXT).unwrap();
    let copy = config.clone();
    assert_eq!(copy.virtual_hosts.len(), 2);
    assert_eq!(copy.directives.get(Directive::CacheSize), Some(&b"64".to_vec()));
    let _host = Host::new(copy);
    assert_eq!(config.virtual_hosts.len(), 2);
}
