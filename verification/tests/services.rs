use lanshare::commands::{generate_qr_code, get_server_addresses, resolve_port, AppState, StartPlan};
use lanshare::device_tracker::{detect_device_type, extract_device_name, hash_user_agent, DeviceTracker, DeviceType};
use lanshare::models::ServerInfo;
use lanshare::network::{
    collect_local_ips, generate_server_info, get_all_local_ips, generate_server_urls, port_scan_step,
    server_info_for, server_info_from, server_urls_for, PortScan,
};
use lanshare::qr_service::{generate_qr_base64, generate_qr_png, generate_qr_svg, png_data_url, QrFailure, QrServiceError};
use lanshare::server::{
    content_disposition, download_error_status, download_file_name, download_mime, list_error_status,
    upload_failure, upload_save_path, uploaded_file_name, HttpServer, ListFilesQuery, UploadAnswer,
    UploadFailure, UploadSession, UploadedFile, BODY_LIMIT_BYTES,
};
use lanshare::file_service::FileServiceError;
use std::hash::{Hash, Hasher};

fn info(ip: &str, port: u16) -> ServerInfo {
    ServerInfo { address: format!("{}:{}", ip, port), port, url: format!("http://{}:{}", ip, port) }
}

#[test]
fn server_info_texts() {
    assert_eq!(server_info_for("192.168.1.5", 8080), info("192.168.1.5", 8080));
    assert_eq!(server_info_from(80, Some("10.0.0.2".into()), Some("10.0.0.3".into())), info("10.0.0.2", 80));
    assert_eq!(server_info_from(80, None, Some("10.0.0.3".into())), info("10.0.0.3", 80));
    assert_eq!(server_info_from(80, None, None), info("127.0.0.1", 80));
    let g = generate_server_info(9000, None).unwrap();
    assert_eq!(g.port, 9000);
    assert_eq!(g.url, format!("http://{}", g.address));
    assert!(g.address.ends_with(":9000"));
}

#[test]
fn local_ip_lists() {
    assert_eq!(collect_local_ips(Some("192.168.1.5".into()), Some("192.168.1.5".into())), vec!["192.168.1.5"]);
    assert_eq!(collect_local_ips(Some("192.168.1.5".into()), Some("10.0.0.1".into())), vec!["192.168.1.5", "10.0.0.1"]);
    assert_eq!(collect_local_ips(Some("127.0.1.1".into()), Some("10.0.0.1".into())), vec!["10.0.0.1"]);
    assert_eq!(collect_local_ips(Some("127.0.1.1".into()), None), vec!["127.0.0.1"]);
    assert_eq!(collect_local_ips(None, None), vec!["127.0.0.1"]);
    let all = get_all_local_ips(None);
    assert!(!all.is_empty());
    for (i, a) in all.iter().enumerate() {
        for b in &all[i + 1..] {
            assert_ne!(a, b);
        }
    }
}

#[test]
fn server_url_lists_skip_later_loopback() {
    let ips = vec!["127.0.0.1".to_string(), "127.0.0.2".to_string(), "10.0.0.1".to_string()];
    assert_eq!(server_urls_for(&ips, 8080), vec![info("127.0.0.1", 8080), info("10.0.0.1", 8080)]);
    let ips2 = vec!["10.0.0.1".to_string(), "127.0.0.1".to_string()];
    assert_eq!(server_urls_for(&ips2, 1), vec![info("10.0.0.1", 1)]);
    assert!(server_urls_for(&vec![], 1).is_empty());
    let urls = generate_server_urls(8080, None);
    assert!(!urls.is_empty());
    assert!(urls.iter().all(|s| s.url == format!("http://{}", s.address) && s.port == 8080));
    assert!(get_server_addresses(8080, None).is_ok());
}

#[test]
fn port_scan_finds_first_free_port() {
    assert_eq!(port_scan_step(8080, true), PortScan::Found(8080));
    assert_eq!(port_scan_step(8080, false), PortScan::Try(8081));
    assert_eq!(port_scan_step(65535, false), PortScan::Exhausted);
    let free = |p: u16| p == 8083 || p == 8090;
    let mut step = PortScan::Try(8080);
    let found = loop {
        match step {
            PortScan::Try(p) => step = port_scan_step(p, free(p)),
            PortScan::Found(p) => break Some(p),
            PortScan::Exhausted => break None,
        }
    };
    assert_eq!(found, Some(8083));
}

#[test]
fn device_kinds_and_names() {
    let iphone = "Mozilla/5.0 (iPhone; CPU iPhone OS 17_0 like Mac OS X) Mobile/15E148";
    assert_eq!(detect_device_type(iphone), DeviceType::Mobile);
    assert_eq!(extract_device_name(iphone), "iPhone");
    let ipad = "Mozilla/5.0 (iPad; CPU OS 17_0 like Mac OS X)";
    assert_eq!(detect_device_type(ipad), DeviceType::Tablet);
    assert_eq!(extract_device_name(ipad), "iPad");
    let tab = "Mozilla/5.0 (Linux; Android 13; SM-X700)";
    assert_eq!(detect_device_type(tab), DeviceType::Mobile);
    assert_eq!(extract_device_name(tab), "Android Tablet");
    let phone = "Mozilla/5.0 (Linux; Android 13; Pixel 7) Mobile Safari";
    assert_eq!(extract_device_name(phone), "Android Phone");
    let win = "Mozilla/5.0 (Windows NT 10.0; Win64; x64)";
    assert_eq!(detect_device_type(win), DeviceType::Desktop);
    assert_eq!(extract_device_name(win), "Windows PC");
    let mac = "Mozilla/5.0 (Macintosh; Intel Mac OS X 14_0)";
    assert_eq!(detect_device_type(mac), DeviceType::Desktop);
    assert_eq!(extract_device_name(mac), "Mac");
    assert_eq!(extract_device_name("X11; LINUX x86_64"), "Linux");
    assert_eq!(detect_device_type("curl/8.0"), DeviceType::Unknown);
    assert_eq!(extract_device_name("curl/8.0"), "Unknown Device");
    assert_eq!(detect_device_type("SOMETHING TABLET"), DeviceType::Tablet);
}

fn hex_of(ua: &str) -> String {
    let mut h = std::collections::hash_map::DefaultHasher::new();
    ua.hash(&mut h);
    format!("{:x}", h.finish())
}

#[test]
fn user_agent_hash_prefix() {
    for ua in ["a", "curl/8.0", "Mozilla/5.0 (Windows NT 10.0)", "", "x y z"] {
        let hex = hex_of(ua);
        let expected = if hex.len() >= 8 { Some(hex[..8].to_string()) } else { None };
        assert_eq!(hash_user_agent(ua), expected);
    }
}

fn agent_with_prefix() -> String {
    (0..).map(|i| format!("agent-{}", i)).find(|ua| hex_of(ua).len() >= 8).unwrap()
}

#[test]
fn tracker_records_and_forgets() {
    let ua = agent_with_prefix();
    let mut t = DeviceTracker::new();
    let d1 = t.record_visit("192.168.1.9", &ua, 1000);
    assert_eq!(d1.id, format!("192.168.1.9-{}", &hex_of(&ua)[..8]));
    assert_eq!(d1.first_seen, 1000);
    assert_eq!(d1.last_seen, 1000);
    let d2 = t.record_visit("192.168.1.9", &ua, 1050);
    assert_eq!(d2.id, d1.id);
    assert_eq!(d2.first_seen, 1000);
    assert_eq!(d2.last_seen, 1050);
    let active = t.get_active_devices(1100);
    assert_eq!(active, vec![d2.clone()]);
    let other = t.record_visit("192.168.1.10", &ua, 1100);
    assert_eq!(t.get_active_devices(1169).len(), 2);
    assert_eq!(t.get_active_devices(1170), vec![other.clone()]);
    t.cleanup_devices(1220);
    assert!(t.get_active_devices(1220).is_empty());
}

#[test]
fn tracker_try_record_visit() {
    let ua = agent_with_prefix();
    let mut t = DeviceTracker::new();
    let d = t.try_record_visit("1.2.3.4", &ua, 5).unwrap();
    assert_eq!(d.ip, "1.2.3.4");
    assert_eq!(t.get_active_devices(5).len(), 1);
}

#[test]
fn app_state_shared_dir() {
    let mut s = AppState::new();
    assert_eq!(s.get_shared_dir(), None);
    assert_eq!(s.set_shared_dir("/nope".into(), false, false), Err("Path does not exist".to_string()));
    assert_eq!(s.set_shared_dir("/etc/hosts".into(), true, false), Err("Path is not a directory".to_string()));
    assert_eq!(s.get_shared_dir(), None);
    assert_eq!(s.set_shared_dir("/srv/share".into(), true, true), Ok(()));
    assert_eq!(s.get_shared_dir(), Some("/srv/share".to_string()));
}

#[test]
fn app_state_start_and_stop() {
    let mut s = AppState::new();
    assert!(matches!(s.plan_start(None), Err(ref m) if m == "Shared directory not set"));
    s.set_shared_dir("/srv/share".into(), true, true).unwrap();
    match s.plan_start(Some(9000)) {
        Ok(StartPlan::Launch { port, shared_dir }) => {
            assert_eq!(port, Some(9000));
            assert_eq!(shared_dir, "/srv/share");
        }
        other => panic!("unexpected {:?}", other),
    }
    let i = info("10.0.0.2", 9000);
    s.record_started(i.clone());
    assert_eq!(s.get_server_status(), Some(i.clone()));
    match s.plan_start(None) {
        Ok(StartPlan::Existing(e)) => assert_eq!(e, i),
        other => panic!("unexpected {:?}", other),
    }
    assert!(s.stop_server());
    assert_eq!(s.get_server_status(), None);
    assert!(!s.stop_server());
    assert!(matches!(s.plan_start(None), Ok(StartPlan::Launch { port: None, .. })));
    assert_eq!(s.server_password(), None);
}

#[test]
fn ports_to_start_on() {
    assert_eq!(resolve_port(Some(3000), Some(8080)), Ok(3000));
    assert_eq!(resolve_port(None, Some(8081)), Ok(8081));
    assert_eq!(resolve_port(None, None), Err("No available port found".to_string()));
}

#[test]
fn qr_codes_match_the_encoder() {
    let code = qrcode::QrCode::new("http://10.0.0.2:8080".as_bytes()).unwrap();
    let expected = code
        .render()
        .min_dimensions(256, 256)
        .dark_color(qrcode::render::svg::Color("#000000"))
        .light_color(qrcode::render::svg::Color("#ffffff"))
        .build();
    assert_eq!(generate_qr_svg("http://10.0.0.2:8080", 256), Ok(expected.clone()));
    assert_eq!(generate_qr_code("http://10.0.0.2:8080", None), Ok(expected));
    let too_long = "x".repeat(8000);
    assert_eq!(generate_qr_svg(&too_long, 256), Err(QrServiceError::Encode(QrFailure::DataTooLong)));
    assert_eq!(generate_qr_code(&too_long, Some(10)), Err("data too long".to_string()));
    assert_eq!(QrFailure::DataTooLong.message(), qrcode::types::QrError::DataTooLong.to_string());
    assert_eq!(QrFailure::InvalidVersion.message(), qrcode::types::QrError::InvalidVersion.to_string());
    assert_eq!(
        QrFailure::UnsupportedCharacterSet.message(),
        qrcode::types::QrError::UnsupportedCharacterSet.to_string()
    );
    assert_eq!(
        QrFailure::InvalidEciDesignator.message(),
        qrcode::types::QrError::InvalidEciDesignator.to_string()
    );
    assert_eq!(QrFailure::InvalidCharacter.message(), qrcode::types::QrError::InvalidCharacter.to_string());
}

#[test]
fn qr_png_and_data_url() {
    let png = generate_qr_png("hello", 64).unwrap();
    assert_eq!(&png[..8], &[0x89, b'P', b'N', b'G', 0x0d, 0x0a, 0x1a, 0x0a]);
    let url = generate_qr_base64("hello", 64).unwrap();
    assert_eq!(url, png_data_url(&png));
    assert!(url.starts_with("data:image/png;base64,iVBORw0KGgo"));
    assert_eq!(png_data_url(b"Man"), "data:image/png;base64,TWFu");
    assert!(matches!(generate_qr_base64(&"x".repeat(8000), 64), Err(QrServiceError::Encode(QrFailure::DataTooLong))));
}

#[test]
fn handler_decisions() {
    assert_eq!(list_error_status(&FileServiceError::PathNotAllowed("x".into())), 403);
    assert_eq!(list_error_status(&FileServiceError::NotADirectory("x".into())), 400);
    assert_eq!(list_error_status(&FileServiceError::Io("x".into())), 500);
    assert_eq!(download_error_status(&FileServiceError::PathNotAllowed("x".into())), 403);
    assert_eq!(download_error_status(&FileServiceError::NotADirectory("x".into())), 404);
    assert_eq!(download_error_status(&FileServiceError::Io("x".into())), 404);
    assert_eq!(download_file_name("/srv/share/a b.txt", true), "a b.txt");
    assert_eq!(download_file_name("/srv/share/a\u{fffd}b.txt", false), "unknown");
    assert_eq!(download_file_name("/", true), "unknown");
    assert_eq!(content_disposition("a.txt"), "attachment; filename=\"a.txt\"");
    assert_eq!(download_mime("/srv/share/a.txt"), "text/plain");
    assert_eq!(download_mime("/srv/share/a.PNG"), "image/png");
    assert_eq!(download_mime("/srv/share/noext"), "application/octet-stream");
    assert_eq!(uploaded_file_name(None), "unnamed");
    assert_eq!(uploaded_file_name(Some("f.bin".into())), "f.bin");
    assert_eq!(upload_save_path("", "f.bin"), "f.bin");
    assert_eq!(upload_save_path("docs//", "f.bin"), "docs/f.bin");
    assert_eq!(upload_failure(UploadFailure::Multipart, "f", "bad"), (400, "Multipart error: bad".to_string()));
    assert_eq!(
        upload_failure(UploadFailure::InvalidSavePath, "f", "Path not allowed: /etc"),
        (500, "Invalid save path for f: Path not allowed: /etc".to_string())
    );
    assert_eq!(upload_failure(UploadFailure::CreateDirectory, "f", "e"), (500, "Failed to create directory: e".to_string()));
    assert_eq!(upload_failure(UploadFailure::CreateFile, "f", "e"), (500, "Failed to create file f: e".to_string()));
    assert_eq!(upload_failure(UploadFailure::Chunk, "f", "e"), (400, "Chunk error for f: e".to_string()));
    assert_eq!(upload_failure(UploadFailure::Write, "f", "e"), (500, "Failed to write file f: e".to_string()));
    assert_eq!(upload_failure(UploadFailure::Flush, "f", "e"), (500, "Failed to flush file f: e".to_string()));
    assert_eq!(BODY_LIMIT_BYTES, 100 * 1024 * 1024 * 1024);
}

#[test]
fn http_server_config() {
    let s = HttpServer::new(8080, "/srv/share".into(), Some("pw".into()));
    assert_eq!(s.port(), 8080);
    assert_eq!(s.shared_dir(), "/srv/share");
    assert_eq!(s.password(), Some("pw".to_string()));
    let q = ListFilesQuery { path: None };
    assert_eq!(q.target(), "");
    let q2 = ListFilesQuery { path: Some("docs".into()) };
    assert_eq!(q2.target(), "docs");
}

#[test]
fn repeat_visits_keep_one_device() {
    let ua = agent_with_prefix();
    let mut t = DeviceTracker::new();
    let d1 = t.record_visit("10.0.0.7", &ua, 10);
    let d2 = t.record_visit("10.0.0.7", &ua, 70);
    assert_eq!(d2.id, d1.id);
    assert_eq!(d2.first_seen, 10);
    assert_eq!(d2.last_seen, 70);
    assert_eq!(d2.device_name, d1.device_name);
    assert_eq!(t.get_active_devices(70).len(), 1);
    let d3 = t.record_visit("10.0.0.8", &ua, 80);
    assert_ne!(d3.id, d1.id);
    assert_eq!(t.get_active_devices(80).len(), 2);
}

#[test]
fn qr_data_url_fails_as_png_does() {
    let data = "a".repeat(3000);
    let png = generate_qr_png(&data, 64);
    let url = generate_qr_base64(&data, 64);
    assert_eq!(png, Err(QrServiceError::Encode(QrFailure::DataTooLong)));
    assert_eq!(url.unwrap_err(), png.unwrap_err());
    assert_eq!(generate_qr_svg(&data, 64).unwrap_err().message(), "data too long");
}

#[test]
fn upload_session_records_files_and_failures() {
    let mut s = UploadSession::new("docs/");
    assert_eq!(s.failure(UploadFailure::Multipart, "bad").status, 400);
    let p = s.start_file(Some("a.txt".to_string()));
    assert_eq!(p, "docs/a.txt");
    let refused = s.failure(UploadFailure::InvalidSavePath, "Path not allowed: x");
    assert_eq!(
        refused,
        UploadAnswer {
            status: 500,
            message: "Invalid save path for a.txt: Path not allowed: x".to_string(),
            remove: None
        }
    );
    s.file_created("/srv/docs/a.txt".to_string());
    s.add_chunk(5);
    s.add_chunk(7);
    assert_eq!(s.received(), 12);
    s.finish_file();
    assert_eq!(s.received(), 0);
    let q = s.start_file(None);
    assert_eq!(q, "docs/unnamed");
    s.file_created("/srv/docs/unnamed".to_string());
    s.add_chunk(3);
    let failed = s.failure(UploadFailure::Write, "disk full");
    assert_eq!(failed.status, 500);
    assert_eq!(failed.message, "Failed to write file unnamed: disk full");
    assert_eq!(failed.remove, Some("/srv/docs/unnamed".to_string()));
    assert_eq!(
        s.files(),
        &vec![UploadedFile {
            file_name: "a.txt".to_string(),
            path: "docs/a.txt".to_string(),
            size: 12,
            saved_to: "/srv/docs/a.txt".to_string()
        }]
    );
}
