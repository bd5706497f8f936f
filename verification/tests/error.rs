use dirust::error::DirustError;

fn io_error() -> std::io::Error {
    std::io::Error::new(std::io::ErrorKind::NotFound, "no such wordlist")
}

fn http_error() -> reqwest::Error {
    reqwest::Client::new().get("not an address").build().unwrap_err()
}

fn to_str_error() -> reqwest::header::ToStrError {
    reqwest::header::HeaderValue::from_bytes(b"\xff").unwrap().to_str().unwrap_err()
}

fn join_error() -> tokio::task::JoinError {
    let runtime = tokio::runtime::Builder::new_current_thread().build().unwrap();
    runtime.block_on(async {
        let handle = tokio::spawn(async {});
        handle.abort();
        handle.await.unwrap_err()
    })
}

#[test]
fn invalid_base_url_message() {
    assert_eq!(DirustError::InvalidBaseUrl.message(), "base must start with http:// or https://");
}

#[test]
fn invalid_concurrency_message() {
    assert_eq!(DirustError::InvalidConcurrency.message(), "concurrency must be at least 1");
}

#[test]
fn io_error_message_has_label_and_detail() {
    let detail = io_error().to_string();
    assert_eq!(DirustError::Io(io_error()).message(), format!("io error: {}", detail));
    assert_eq!(DirustError::Io(io_error()).message(), "io error: no such wordlist");
}

#[test]
fn http_error_message_has_label_and_detail() {
    let detail = http_error().to_string();
    assert!(!detail.is_empty());
    assert_eq!(DirustError::Http(http_error()).message(), format!("http error: {}", detail));
}

#[test]
fn header_error_message_has_label_and_detail() {
    let detail = to_str_error().to_string();
    assert_eq!(
        DirustError::HeaderToStr(to_str_error()).message(),
        format!("header to_str error: {}", detail)
    );
}

#[test]
fn join_error_message_has_label_and_detail() {
    let error = join_error();
    let detail = error.to_string();
    assert_eq!(DirustError::Join(error).message(), format!("task join error: {}", detail));
}

#[test]
fn outside_errors_convert_into_their_variants() {
    assert!(matches!(DirustError::from(io_error()), DirustError::Io(_)));
    assert!(matches!(DirustError::from(http_error()), DirustError::Http(_)));
    assert!(matches!(DirustError::from(to_str_error()), DirustError::HeaderToStr(_)));
    assert!(matches!(DirustError::from(join_error()), DirustError::Join(_)));
}

#[test]
fn conversion_keeps_the_error_it_wraps() {
    match DirustError::from(io_error()) {
        DirustError::Io(inner) => {
            assert_eq!(inner.kind(), std::io::ErrorKind::NotFound);
            assert_eq!(inner.to_string(), "no such wordlist");
        }
        other => panic!("wrong variant: {:?}", other),
    }
    match DirustError::from(http_error()) {
        DirustError::Http(inner) => assert!(inner.is_builder()),
        other => panic!("wrong variant: {:?}", other),
    }
    match DirustError::from(join_error()) {
        DirustError::Join(inner) => assert!(inner.is_cancelled()),
        other => panic!("wrong variant: {:?}", other),
    }
}

#[test]
fn question_mark_converts_an_io_error() {
    fn read() -> Result<(), DirustError> {
        Err(io_error())?;
        Ok(())
    }
    assert!(matches!(read(), Err(DirustError::Io(_))));
}
