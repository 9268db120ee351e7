use blobert::options::{to_buffer_length, Options};
use blobert::storage::Action;
use blobert::Blobert;

fn options(buf_size: &str) -> Options {
    Options {
        protocol: "https".to_string(),
        host: "www.example.org".to_string(),
        port: 7000,
        log_level: "info".to_string(),
        buf_size: buf_size.to_string(),
    }
}

#[test]
fn bind_addr_is_host_and_port() {
    assert_eq!(options("10MB").get_bind_addr(), "www.example.org:7000");
}

#[test]
fn server_url_has_the_protocol() {
    assert_eq!(options("10MB").get_server_url(), "https://www.example.org:7000");
}

#[test]
fn buf_size_is_read_as_bytes() {
    assert_eq!(options("10MB").get_buf_size_bytes(), Some(10_000_000));
    assert_eq!(options("8 KiB").get_buf_size_bytes(), Some(8192));
    assert_eq!(options("512").get_buf_size_bytes(), Some(512));
}

#[test]
fn buf_size_that_is_no_size_is_refused() {
    assert_eq!(options("lots").get_buf_size_bytes(), None);
    assert_eq!(options("").get_buf_size_bytes(), None);
}

#[test]
fn buf_size_that_is_too_long_is_refused() {
    assert_eq!(options("1000000000000000000000000000000GB").get_buf_size_bytes(), None);
    assert_eq!(options("123456789012345678").get_buf_size_bytes(), None);
    assert_eq!(options("10000000000000000").get_buf_size_bytes(), Some(10000000000000000));
    assert_eq!(options("999999999999999 B").get_buf_size_bytes(), Some(999999999999999));
}

#[test]
fn buffer_length_must_fit_the_machine() {
    assert_eq!(to_buffer_length(Some(0)), Some(0));
    assert_eq!(to_buffer_length(Some(4096)), Some(4096));
    assert_eq!(to_buffer_length(Some(u128::MAX)), None);
    assert_eq!(to_buffer_length(None), None);
}

#[test]
fn registry_knows_its_address() {
    let registry = Blobert::new("https://www.myhost.cn".to_string());
    assert_eq!(registry.get_server_url(), "https://www.myhost.cn");
    assert_eq!(registry.blob_store.dir, "/var/local/register");
    assert_eq!(registry.meta_store.data_dir, "/var/local/register");
    assert_eq!(registry.blob_store.buf_size, 10 * 1024 * 1024);
}

#[test]
fn registry_prepares_its_directories() {
    let registry = Blobert::at("http://localhost".to_string(), "/tmp/data", 4096);
    let paths: Vec<String> = registry
        .setup()
        .into_iter()
        .map(|call| match call {
            Action::CreateDirAll { path } => path,
            other => panic!("unexpected call {:?}", other),
        })
        .collect();
    assert_eq!(
        paths,
        vec![
            "/tmp/data",
            "/tmp/data",
            "/tmp/data/upload",
            "/tmp/data/blobs",
            "/tmp/data/manifests"
        ]
    );
}

#[test]
fn probe_is_answered() {
    let r = Blobert::v2();
    assert_eq!(r.status, 200);
    assert!(r.headers.is_empty());
    assert!(r.body.is_empty());
}
