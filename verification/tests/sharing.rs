use appmanager::client::{
    check_download, check_remote_apps, client_connection_status, client_get, client_get_status,
    client_upload_request, display_name, download_names, inactive_client_connection_status,
    judge_connection, test_outcome, upload_outcome, wants_server_info, ServerInfo,
};
use appmanager::http::{
    check_client, content_length, file_response_head, get_request, header_value, is_authorized,
    json_response, parse_headers, parse_http_response, parse_response_head, sized_response_head,
    upload_request,
};
use appmanager::json::{
    count_field, error_object, flag_field, keep_texts, object, pretty_object, problem_text,
    response_error_message, text_field, texts_field, JsonField,
};
use appmanager::model::{
    AppData, ClientConfig, HttpResponse, ManagedApp, ServerClientInfo, ServerConfig, Settings,
};
use appmanager::paths::{FilePath, PartKind, PathPart};
use appmanager::server::{
    app_id_in_path, auth_test_body, check_downloads, check_sent, current_server_status,
    failure_answer, plan_upload, recent_server_clients, refusal, remember_server_client,
    requested_app, route_request, server_info_body, stop_server, upload_display_name, Route,
    ServerRuntime,
};
use appmanager::sessions::{
    download_ending, download_report, on_silence, Report, Silence, UploadSession,
};
use appmanager::settings::new_library_data;
use appmanager::streams::{Download, ResponseStream, UploadReceiver};
use appmanager::transfer::{
    calculate_transfer_speed, download_path, next_temp_file_sequence, remote_progress_path,
    temp_download_name, temp_package_name, transfer_key, wants_report, zip_progress, PackProgress,
    SpeedSamples, RUNNING,
};
use appmanager::wire::find_head_end;

fn path(s: &str) -> FilePath {
    let parts = s
        .split('/')
        .filter(|p| !p.is_empty())
        .enumerate()
        .map(|(i, piece)| PathPart {
            kind: PartKind::Normal,
            name: piece.as_bytes().to_vec(),
            lead: if i == 0 { String::new() } else { "/".to_string() },
            shown: piece.to_string(),
        })
        .collect();
    FilePath { parts, tail: String::new(), separator: '/' }
}

fn server() -> ServerConfig {
    let mut c = ServerConfig::default();
    c.username = "me".to_string();
    c.password = "secret".to_string();
    c
}

fn client() -> ClientConfig {
    ClientConfig {
        host: " host ".to_string(),
        port: 80,
        username: " me ".to_string(),
        password: "secret".to_string(),
    }
}

fn pairs(list: &[(&str, &str)]) -> Vec<(String, String)> {
    list.iter().map(|(a, b)| (a.to_string(), b.to_string())).collect()
}

#[test]
fn headers_are_read_up_to_the_blank_line() {
    let text = "GET / HTTP/1.1\r\nHost: a:b\r\nnonsense\r\n X-Y :  v w \r\n\r\nLate: x\r\n";
    assert_eq!(parse_headers(text), pairs(&[("host", "a:b"), ("x-y", "v w")]));
    assert!(parse_headers("").is_empty());
    let headers = pairs(&[("a", "1"), ("b", "2"), ("a", "3")]);
    assert_eq!(header_value(&headers, "A"), Some("1".to_string()));
    assert_eq!(header_value(&headers, "c"), None);
    assert_eq!(content_length(&pairs(&[("content-length", "12")])), 12);
    assert_eq!(content_length(&pairs(&[("content-length", "x")])), 0);
    assert_eq!(content_length(&pairs(&[])), 0);
}

#[test]
fn credentials_are_checked() {
    let good = pairs(&[("x-appmanager-username", "me"), ("x-appmanager-password", "secret")]);
    let bad = pairs(&[("x-appmanager-username", "me"), ("x-appmanager-password", "Secret")]);
    let nobody = pairs(&[]);
    assert!(is_authorized(&good, &server()));
    assert!(!is_authorized(&bad, &server()));
    assert!(!is_authorized(&nobody, &server()));
    let mut hashed = server();
    hashed.password = String::new();
    assert!(!is_authorized(&good, &hashed));
    hashed.password_hash = appmanager::fnv::make_id("secret");
    assert!(is_authorized(&good, &hashed));
    assert!(!is_authorized(&bad, &hashed));
    let mut open = server();
    open.username = String::new();
    open.password = String::new();
    assert!(!is_authorized(&nobody, &open));
}

#[test]
fn answers_are_parsed() {
    let r = parse_http_response(b"HTTP/1.1 404 Not Found\r\nA: b\r\n\r\nbody").unwrap();
    assert_eq!((r.status, r.body.as_slice()), (404, b"body".as_slice()));
    let problem = |bytes: &[u8]| parse_http_response(bytes).unwrap_err();
    assert_eq!(problem(b"HTTP/1.1 200 OK\r\n"), "服务端响应格式无效");
    assert_eq!(problem(b"\r\n\r\nx"), "服务端响应为空");
    assert_eq!(problem(b"HTTP/1.1\r\n\r\n"), "无法读取服务端状态码");
    assert_eq!(problem(b"HTTP/1.1 70000 X\r\n\r\n"), "无法读取服务端状态码");
    assert_eq!(find_head_end(b"a\r\n\r\r\n\r\nb"), Some(4));
    assert_eq!(find_head_end(b"\r\n\r"), None);
    let odd = parse_http_response(b"\xff\xfe 201 x\r\n\r\n").unwrap();
    assert_eq!(odd.status, 201);
}

#[test]
fn json_answers_are_read_back() {
    let answer = json_response(401, "{\"错\":1}");
    assert!(answer.starts_with("HTTP/1.1 401 Unauthorized\r\nContent-Type: application/json; charset=utf-8\r\nAccess-Control-Allow-Origin: *\r\nContent-Length: 9\r\nConnection: close\r\n\r\n"));
    let r = parse_http_response(answer.as_bytes()).unwrap();
    assert_eq!((r.status, r.body), (401, "{\"错\":1}".as_bytes().to_vec()));
    for (status, words) in [
        (200, "OK"),
        (400, "Bad Request"),
        (403, "Forbidden"),
        (404, "Not Found"),
        (405, "Method Not Allowed"),
        (500, "Internal Server Error"),
        (299, "OK"),
    ] {
        let answer = json_response(status, "");
        assert!(answer.starts_with(&format!("HTTP/1.1 {status} {words}\r\n")));
        assert_eq!(parse_http_response(answer.as_bytes()).unwrap().status, status);
    }
}

#[test]
fn json_objects_are_written_and_read() {
    let text = object(vec![
        ("b".to_string(), JsonField::Text("x\"\n中".to_string())),
        ("a".to_string(), JsonField::Flag(true)),
        ("n".to_string(), JsonField::Count(u64::MAX)),
        ("l".to_string(), JsonField::Texts(vec!["p".to_string(), "q".to_string()])),
    ]);
    assert_eq!(
        text,
        "{\"a\":true,\"b\":\"x\\\"\\n中\",\"l\":[\"p\",\"q\"],\"n\":18446744073709551615}"
    );
    let bytes = text.as_bytes();
    assert_eq!(text_field(bytes, "b"), Some("x\"\n中".to_string()));
    assert_eq!(flag_field(bytes, "a"), Some(true));
    assert_eq!(count_field(bytes, "n"), Some(u64::MAX));
    assert_eq!(texts_field(bytes, "l"), vec!["p", "q"]);
    assert_eq!(text_field(bytes, "a"), None);
    assert_eq!(text_field(b"[1]", "a"), None);
    assert_eq!(text_field(b"nonsense", "a"), None);
    assert_eq!(flag_field(b"{\"a\":1}", "a"), None);
    assert_eq!(count_field(b"{\"a\":-1}", "a"), None);
    assert_eq!(count_field(b"{\"a\":1.5}", "a"), None);
    assert!(texts_field(b"{\"a\":\"x\"}", "a").is_empty());
    assert_eq!(texts_field(b"{\"a\":[\"x\",1,null,\"y\"]}", "a"), vec!["x", "y"]);
    let pretty = pretty_object(vec![("k".to_string(), JsonField::Text("v".to_string()))]);
    assert_eq!(pretty, "{\n  \"k\": \"v\"\n}");
    assert_eq!(keep_texts(&vec![None, Some("z".to_string())]), vec!["z"]);
}

#[test]
fn problems_reach_the_client() {
    let body = error_object("磁盘 \"满\"");
    assert_eq!(body, "{\"error\":\"磁盘 \\\"满\\\"\"}");
    let answer = json_response(500, &body);
    let r = parse_http_response(answer.as_bytes()).unwrap();
    assert_eq!(response_error_message(&r.body), "：磁盘 \"满\"");
    assert_eq!(response_error_message(b"{}"), "");
    assert_eq!(problem_text(&None), "");
    assert_eq!(problem_text(&Some("x".to_string())), "：x");
    let failure = failure_answer("x");
    assert_eq!((failure.status, failure.body.as_str()), (500, "{\"error\":\"x\"}"));
}

#[test]
fn the_client_gets_in_with_its_credentials() {
    let request = get_request(&client(), "/api/apps");
    assert_eq!(
        request,
        "GET /api/apps HTTP/1.1\r\nHost: host:80\r\nX-AppManager-Username: me\r\nX-AppManager-Password: secret\r\nConnection: close\r\n\r\n"
    );
    let routed = route_request(request.as_bytes(), &server());
    assert_eq!(routed.route, Route::Apps);
    assert_eq!(routed.path, "/api/apps");
    assert!(routed.remember);
    let mut other = client();
    other.password = "guess".to_string();
    let routed = route_request(get_request(&other, "/api/apps").as_bytes(), &server());
    assert_eq!(routed.route, Route::Unauthorized);
    assert!(!routed.remember);
}

fn route(line: &str, with_credentials: bool) -> Route {
    let credentials = if with_credentials {
        "X-AppManager-Username: me\r\nX-AppManager-Password: secret\r\n"
    } else {
        ""
    };
    let text = format!("{line}\r\n{credentials}\r\n");
    route_request(text.as_bytes(), &server()).route
}

#[test]
fn requests_are_routed() {
    assert_eq!(route("GET /api/server-info HTTP/1.1", false), Route::ServerInfo);
    assert_eq!(route("GET /api/auth/test HTTP/1.1", true), Route::AuthTest);
    assert_eq!(route("GET /api/auth/test?x=1 HTTP/1.1", true), Route::AuthTest);
    assert_eq!(route("GET /api/categories HTTP/1.1", true), Route::Categories);
    assert_eq!(route("GET /api/apps/1/download HTTP/1.1", true), Route::Download);
    assert_eq!(route("GET /api/apps/1/progress HTTP/1.1", true), Route::Progress);
    assert_eq!(route("GET /other HTTP/1.1", true), Route::NotFound);
    assert_eq!(route("POST /api/apps/upload HTTP/1.1", true), Route::Upload);
    assert_eq!(route("POST /api/apps/upload HTTP/1.1", false), Route::Unauthorized);
    assert_eq!(route("POST /api/apps HTTP/1.1", true), Route::MethodNotAllowed);
    assert_eq!(route("DELETE /api/apps HTTP/1.1", false), Route::MethodNotAllowed);
    assert_eq!(route("GET /api/apps/1/download HTTP/1.1", false), Route::Unauthorized);
    assert_eq!(route("GET", true), Route::BadRequest);
    assert_eq!(route_request(b"", &server()).route, Route::BadRequest);
}

#[test]
fn nobody_is_remembered_for_asking_about_progress() {
    let text = "GET /api/apps/1/progress HTTP/1.1\r\nX-AppManager-Username: me\r\nX-AppManager-Password: secret\r\n\r\n";
    assert!(!route_request(text.as_bytes(), &server()).remember);
    assert!(route_request(b"GET /api/server-info HTTP/1.1\r\n\r\n", &server()).remember);
}

#[test]
fn refusals_have_statuses() {
    assert_eq!(refusal(Route::BadRequest), Some((400, "{\"error\":\"bad request\"}")));
    assert_eq!(refusal(Route::Unauthorized), Some((401, "{\"error\":\"unauthorized\"}")));
    assert_eq!(refusal(Route::MethodNotAllowed), Some((405, "{\"error\":\"method not allowed\"}")));
    assert_eq!(refusal(Route::NotFound), Some((404, "{\"error\":\"not found\"}")));
    assert_eq!(refusal(Route::Apps), None);
}

#[test]
fn the_server_tells_of_itself() {
    assert_eq!(
        server_info_body(&server()),
        "{\"allowDownloads\":true,\"authRequired\":true,\"mode\":\"server\",\"name\":\"AppManager\"}"
    );
    assert_eq!(auth_test_body(), "{\"ok\":true}");
}

#[test]
fn ids_are_taken_out_of_paths() {
    assert_eq!(app_id_in_path("/api/apps/abc/download", "/download"), "abc");
    assert_eq!(app_id_in_path("/api/apps//abc//download", "/download"), "abc");
    assert_eq!(app_id_in_path("/api/apps/x/download/download", "/download"), "x");
    assert_eq!(download_path("abc"), "/api/apps/abc/download");
    assert_eq!(app_id_in_path(&download_path("abc"), "/download"), "abc");
    assert_eq!(remote_progress_path("/api/apps/abc/download"), Some("/api/apps/abc/progress".to_string()));
    assert_eq!(remote_progress_path("/api/apps/abc"), None);
    assert_eq!(remote_progress_path("/x/abc/download"), None);
}

fn data_with(id: &str) -> AppData {
    let mut d = new_library_data(&path("l"));
    d.apps.push(ManagedApp {
        id: id.to_string(),
        name: "n".to_string(),
        category_id: "c".to_string(),
        category_name: "c".to_string(),
        folder_path: "f".to_string(),
        executable_path: None,
        executable_candidates: vec![],
        icon_data_url: None,
        favorite: false,
        note: String::new(),
        launch_count: 0,
        last_launched_at: None,
    });
    d
}

#[test]
fn packages_are_handed_out_where_they_may_be() {
    let data = Ok(data_with("abc"));
    let app = requested_app("/api/apps/abc/download", &server(), &data).unwrap();
    assert_eq!(app.id, "abc");
    let missing = requested_app("/api/apps/x/download", &server(), &data).unwrap_err();
    assert_eq!((missing.status, missing.body.as_str()), (404, "{\"error\":\"app not found\"}"));
    let broken = requested_app("/api/apps/abc/download", &server(), &Err("e".to_string())).unwrap_err();
    assert_eq!((broken.status, broken.body.as_str()), (500, "{\"error\":\"e\"}"));
    let mut closed = server();
    closed.allow_downloads = false;
    let refused = requested_app("/api/apps/abc/download", &closed, &data).unwrap_err();
    assert_eq!((refused.status, refused.body.as_str()), (403, "{\"error\":\"downloads disabled\"}"));
    assert!(check_downloads(&server()).is_ok());
    assert!(check_downloads(&closed).is_err());
    assert!(check_sent(5, 5).is_ok());
    assert!(check_sent(4, 5).unwrap_err().contains("4 / 5"));
}

#[test]
fn uploads_are_planned() {
    let request = upload_request(&client(), "工具.zip", "办公", 5);
    let mut bytes = request.as_bytes().to_vec();
    bytes.extend_from_slice(b"he");
    let routed = route_request(&bytes, &server());
    assert_eq!(routed.route, Route::Upload);
    let plan = plan_upload(&routed.headers, &bytes, &server()).unwrap();
    assert_eq!(plan.content_length, 5);
    assert_eq!(plan.file_name, "工具.zip");
    assert_eq!(plan.category_name, "办公");
    assert_eq!(plan.app_id, format!("server-upload-{}", appmanager::fnv::make_id("工具.zip")));
    assert_eq!(&bytes[plan.body_start..], b"he");
    assert_eq!(upload_display_name(&path("工具.zip"), "工具.zip"), "工具");
    assert_eq!(upload_display_name(&path(""), "x"), "x");
}

#[test]
fn uploads_are_refused() {
    let length = pairs(&[("content-length", "5")]);
    let plan = plan_upload(&length, b"x\r\n\r\n", &server()).unwrap();
    assert_eq!((plan.file_name.as_str(), plan.category_name.as_str()), ("uploaded.zip", "未审核软件"));
    let refused = |headers: &[(&str, &str)], bytes: &[u8], config: &ServerConfig| {
        let a = plan_upload(&pairs(headers), bytes, config).unwrap_err();
        (a.status, a.body)
    };
    let mut closed = server();
    closed.allow_downloads = false;
    assert_eq!(
        refused(&[("content-length", "5")], b"\r\n\r\n", &closed),
        (403, "{\"error\":\"uploads disabled\"}".to_string())
    );
    let missing = (400, "{\"error\":\"missing content length\"}".to_string());
    assert_eq!(refused(&[], b"\r\n\r\n", &server()), missing);
    assert_eq!(refused(&[("content-length", "0")], b"\r\n\r\n", &server()), missing);
    assert_eq!(refused(&[("content-length", "x")], b"\r\n\r\n", &server()), missing);
    assert_eq!(
        refused(&[("content-length", "5")], b"\r\n", &server()),
        (400, "{\"error\":\"bad request\"}".to_string())
    );
}

#[test]
fn pieces_of_an_upload_do_not_matter() {
    let package: Vec<u8> = (0..=255).collect();
    for size in [1usize, 3, 100, 256, 300] {
        let mut receiver = UploadReceiver::new(200);
        let mut kept: Vec<u8> = Vec::new();
        for piece in package.chunks(size) {
            let n = receiver.accept(piece.len());
            kept.extend_from_slice(&piece[..n]);
        }
        assert_eq!(kept, package[..200].to_vec());
        assert_eq!((receiver.written(), receiver.wanted()), (200, 0));
        assert!(receiver.finish().is_ok());
    }
    let mut short = UploadReceiver::new(100000);
    assert_eq!(short.wanted(), 65536);
    short.accept(99999);
    assert_eq!(short.wanted(), 1);
    let a = short.finish().unwrap_err();
    assert_eq!((a.status, a.body.as_str()), (400, "{\"error\":\"incomplete upload\"}"));
}

#[test]
fn pieces_of_a_download_do_not_matter() {
    let content: Vec<u8> = (0..1000u32).map(|k| (k % 251) as u8).collect();
    let mut answer = file_response_head(1000, "包.zip", " 办公 ").into_bytes();
    answer.extend_from_slice(&content);
    for size in [1usize, 2, 7, 64, 5000] {
        let mut download = Download::new();
        let mut body: Vec<u8> = Vec::new();
        for piece in answer.chunks(size) {
            body.extend(download.accept(piece).unwrap());
        }
        assert_eq!(body, content);
        assert_eq!(download.transferred(), 1000);
        assert!(download.finish().is_ok());
        let head = download.head().unwrap();
        assert_eq!((head.status, head.total), (200, 1000));
        assert_eq!(
            download_names(head, "id"),
            ("包.zip".to_string(), "办公".to_string())
        );
    }
}

#[test]
fn downloads_that_break_off_are_refused() {
    let mut nothing = Download::new();
    assert_eq!(nothing.finish().unwrap_err(), "服务端响应格式无效，未收到完整响应头");
    assert!(!nothing.wants_report(1000));
    assert_eq!(nothing.accept(b"HTTP/1.1 200 OK\r\nContent-Length: 4\r\n\r\nab").unwrap(), b"ab");
    assert_eq!(nothing.finish().unwrap_err(), "下载未完成：已接收 2 / 4 字节");
    nothing.accept(b"cd").unwrap();
    assert!(nothing.finish().is_ok());
    let mut bad = Download::new();
    assert_eq!(bad.accept(b"HTTP/1.1\r\n\r\n").unwrap_err(), "无法读取服务端状态码");
    let mut open = Download::new();
    open.accept(b"HTTP/1.1 200 OK\r\n\r\nabc").unwrap();
    assert!(open.finish().is_ok());
    assert_eq!(download_names(open.head().unwrap(), "id"), ("id.bin".to_string(), "来自服务端".to_string()));
}

#[test]
fn downloads_report_now_and_then() {
    let mut d = Download::new();
    d.accept(b"HTTP/1.1 200 OK\r\nContent-Length: 4000000\r\n\r\n").unwrap();
    let piece = vec![0u8; 600000];
    for k in 0..6 {
        let wanted = d.wants_report(0);
        match k {
            0 | 1 | 2 => assert!(wanted),
            3 => assert!(!wanted),
            _ => assert!(wanted),
        }
        assert!(d.wants_report(351));
        if wanted {
            d.reported();
        }
        d.accept(&piece).unwrap();
    }
}

#[test]
fn answers_in_memory_grow() {
    let mut stream = ResponseStream::new();
    assert!(stream.progress().is_none());
    stream.push(b"HTTP/1.1 200 OK\r\nContent-Length: 5\r\n\r");
    assert!(stream.progress().is_none());
    assert_eq!(stream.finish().unwrap_err(), "服务端响应格式无效，未收到完整响应头");
    stream.push(b"\nhe");
    assert_eq!(stream.progress(), Some((2, 5)));
    assert_eq!(stream.finish().unwrap_err(), "下载未完成：已接收 2 / 5 字节");
    stream.push(b"llo");
    let r = stream.finish().unwrap();
    assert_eq!((r.status, r.body.as_slice()), (200, b"hello".as_slice()));
    let mut bad = ResponseStream::new();
    bad.push(b"\r\n\r\n");
    assert_eq!(bad.finish().unwrap_err(), "服务端响应为空");
}

#[test]
fn heads_of_answers_are_parsed() {
    let head = parse_response_head(b"HTTP/1.1 200 OK\r\nA: 1\r\n\r\nB: 2").unwrap();
    assert_eq!(head.headers, pairs(&[("a", "1"), ("b", "2")]));
    assert_eq!(head.total, 0);
    assert!(parse_response_head(b"").is_err());
}

fn seen(list: &mut Vec<ServerClientInfo>, address: &str, now: u64) {
    let headers = pairs(&[("x-appmanager-username", "me")]);
    remember_server_client(list, address, &headers, "/p", now);
}

#[test]
fn clients_are_remembered_for_a_while() {
    let mut list = Vec::new();
    seen(&mut list, "1", 1000);
    seen(&mut list, "2", 1290);
    seen(&mut list, "1", 1100);
    assert_eq!(list.len(), 2);
    remember_server_client(&mut list, "3", &pairs(&[]), "/q", 1295);
    assert_eq!(list[2].username, "anonymous");
    let shown = recent_server_clients(&mut list, 1300);
    let addresses: Vec<&str> = shown.iter().map(|c| c.address.as_str()).collect();
    assert_eq!(addresses, vec!["3", "2", "1"]);
    assert_eq!(shown.iter().map(|c| c.online).collect::<Vec<_>>(), vec![true, true, false]);
    let later = recent_server_clients(&mut list, 1401);
    assert_eq!(later.len(), 2);
    assert_eq!(list.len(), 2);
    let mut many = Vec::new();
    for k in 0..20 {
        seen(&mut many, &k.to_string(), k);
    }
    let shown = recent_server_clients(&mut many, 20);
    assert_eq!((shown.len(), many.len()), (12, 20));
    assert_eq!(shown[0].last_seen_at, 19);
    assert!(shown.iter().all(|c| c.online));
}

#[test]
fn the_server_stops_once() {
    let mut runtime = Some(ServerRuntime { stopped: false, host: "h".to_string(), port: 9 });
    let status = current_server_status(&runtime, &vec![]);
    assert!(status.running);
    assert_eq!((status.host.as_str(), status.port), ("h", 9));
    let stopped = stop_server(&mut runtime).unwrap();
    assert!(stopped.stopped);
    assert_eq!(stopped.port, 9);
    assert!(stop_server(&mut runtime).is_none());
    let status = current_server_status(&runtime, &vec![]);
    assert!(!status.running);
    assert_eq!((status.host.as_str(), status.port), ("", 0));
}

#[test]
fn speeds_are_bytes_per_second() {
    let mut samples = SpeedSamples::new();
    let key = transfer_key("download", "a");
    assert_eq!(key, "download-a");
    assert_ne!(key, transfer_key("download", "b"));
    assert_eq!(calculate_transfer_speed(&mut samples, &key, 1000, "running", 1000), 0);
    assert_eq!(calculate_transfer_speed(&mut samples, &key, 3000, "running", 1500), 4000);
    assert_eq!(calculate_transfer_speed(&mut samples, &key, 3000, "running", 1500), 4000);
    assert_eq!(calculate_transfer_speed(&mut samples, &key, 2000, "running", 1600), 4000);
    assert_eq!(calculate_transfer_speed(&mut samples, &key, 9000, "done", 1700), 0);
    assert_eq!(calculate_transfer_speed(&mut samples, &key, 9001, "running", 2700), 1);
    assert_eq!(calculate_transfer_speed(&mut samples, "other", 5, "running", 2700), 0);
}

#[test]
fn packing_reports_its_progress() {
    assert_eq!(zip_progress(5, 10, 100, 0, false), None);
    assert_eq!(zip_progress(5, 10, 100, 351, false), Some(50));
    assert_eq!(zip_progress(5, 10, 100, 0, true), Some(50));
    assert_eq!(zip_progress(20, 10, 100, 0, false), Some(100));
    assert_eq!(zip_progress(0, 0, 100, 0, true), Some(0));
    let mut p = PackProgress::new(10);
    p.add(4);
    assert_eq!(p.report(0), None);
    assert_eq!(p.report(400), Some(4));
    p.add(usize::MAX);
    assert_eq!(p.report(0), Some(10));
    assert_eq!(p.done(), 10);
    assert!(wants_report(351, 1, 2));
    assert!(wants_report(0, 2, 2));
    assert!(!wants_report(350, 1, 2));
}

#[test]
fn temporary_files_have_numbers() {
    assert_eq!(next_temp_file_sequence(1, 1), 65537);
    assert_eq!(next_temp_file_sequence(0, 7), 7);
    assert_ne!(next_temp_file_sequence(5, 1), next_temp_file_sequence(5, 2));
    assert_eq!(temp_download_name("a", 7), "appmanager-download-a-7.part");
    assert_eq!(temp_package_name("a", 7, "x.zip"), "appmanager-a-7-x.zip");
}

#[test]
fn clients_need_a_server_and_credentials() {
    assert!(check_client(&client()).is_ok());
    let mut lost = client();
    lost.host = " ".to_string();
    assert_eq!(client_get(&lost, "/x").unwrap_err(), "请先填写服务端地址");
    let mut nameless = client();
    nameless.username = " ".to_string();
    assert_eq!(client_get_status(&nameless, "/x").unwrap_err(), "请先填写客户端用户名和密码");
    let mut open = client();
    open.password = String::new();
    assert_eq!(client_upload_request(&open, "f", "c", 1).unwrap_err(), "请先填写客户端用户名和密码");
    let out = client_get(&client(), "/x").unwrap();
    assert_eq!(out.address, "host:80");
    assert!(out.request.starts_with("GET /x HTTP/1.1\r\n"));
    assert_eq!(out.connect_timeout_ms, None);
    let quick = client_get_status(&client(), "/x").unwrap();
    assert_eq!((quick.connect_timeout_ms, quick.io_timeout_ms), (Some(1200), Some(1500)));
    let up = client_upload_request(&client(), "f.zip", "c", 3).unwrap();
    assert!(up.request.starts_with("POST /api/apps/upload HTTP/1.1\r\nHost: host:80\r\n"));
    assert!(up.request.ends_with("Content-Length: 3\r\nConnection: close\r\n\r\n"));
}

fn answer(status: u16, body: &str) -> HttpResponse {
    HttpResponse { status, body: body.as_bytes().to_vec() }
}

#[test]
fn the_connection_is_judged() {
    let info = answer(200, &server_info_body(&server()));
    let ok = Ok(answer(200, ""));
    assert!(wants_server_info(&ok));
    let status = client_connection_status(&client(), &ok, &Some(info), 7);
    assert!(status.configured && status.online);
    assert_eq!(status.message, "连接正常");
    assert_eq!((status.host.as_str(), status.username.as_str()), ("host", "me"));
    assert_eq!(status.server_name, Some("AppManager".to_string()));
    assert_eq!(status.server_mode, Some("server".to_string()));
    assert_eq!(status.allow_downloads, Some(true));
    assert_eq!(status.checked_at, 7);
    let refused = client_connection_status(&client(), &Ok(answer(401, "")), &None, 7);
    assert_eq!((refused.online, refused.message.as_str()), (false, "认证失败，请检查用户名和密码"));
    let odd = client_connection_status(&client(), &Ok(answer(500, "")), &None, 7);
    assert_eq!(odd.message, "连接异常，HTTP 状态：500");
    let failed = client_connection_status(&client(), &Err("no route".to_string()), &None, 7);
    assert_eq!(failed.message, "no route");
    assert!(!wants_server_info(&Err("no route".to_string())));
    let mut unset = client();
    unset.password = String::new();
    let status = client_connection_status(&unset, &ok, &None, 7);
    assert_eq!((status.configured, status.online), (false, false));
    assert_eq!(status.message, "请先填写服务端地址、用户名和密码");
    let told = ServerInfo { name: Some("n".to_string()), mode: None, allow_downloads: Some(false) };
    let judged = judge_connection(&client(), &ok, Some(told), 7);
    assert_eq!((judged.server_name, judged.allow_downloads), (Some("n".to_string()), Some(false)));
}

#[test]
fn without_client_mode_there_is_no_connection() {
    let mut s = Settings::default();
    let status = inactive_client_connection_status(&s, 3);
    assert_eq!(status.message, "当前为本地模式，远程连接功能未启用");
    assert_eq!((status.configured, status.host.as_str(), status.checked_at), (false, "127.0.0.1", 3));
    s.run_mode = "server".to_string();
    assert_eq!(
        inactive_client_connection_status(&s, 3).message,
        "当前为服务端模式，客户端连接功能未启用"
    );
    s.run_mode = "other".to_string();
    assert_eq!(inactive_client_connection_status(&s, 3).message, "客户端连接功能未启用");
}

#[test]
fn outcomes_are_told() {
    assert_eq!(test_outcome(200).unwrap(), "连接成功");
    assert_eq!(test_outcome(401).unwrap_err(), "认证失败，请检查用户名和密码");
    assert_eq!(test_outcome(503).unwrap_err(), "连接失败，HTTP 状态：503");
    assert!(check_remote_apps(200).is_ok());
    assert_eq!(check_remote_apps(404).unwrap_err(), "获取服务端软件列表失败，HTTP 状态：404");
    assert!(check_download(200, b"").is_ok());
    assert_eq!(
        check_download(404, b"{\"error\":\"app not found\"}").unwrap_err(),
        "下载失败，HTTP 状态：404：app not found"
    );
    assert_eq!(upload_outcome(&answer(200, "")).unwrap(), "上传完成，已进入服务端未审核软件");
    assert_eq!(upload_outcome(&answer(401, "")).unwrap_err(), "认证失败，请检查用户名和密码");
    assert_eq!(
        upload_outcome(&answer(400, "{\"error\":\"incomplete upload\"}")).unwrap_err(),
        "上传失败，HTTP 状态：400：incomplete upload"
    );
    assert_eq!(upload_outcome(&answer(500, "x")).unwrap_err(), "上传失败，HTTP 状态：500");
    assert_eq!(display_name(&None, "远程软件"), "远程软件");
    assert_eq!(display_name(&Some("n".to_string()), "远程软件"), "n");
}

fn upload_of(length: usize) -> UploadSession {
    let headers = pairs(&[("content-length", &length.to_string())]);
    let plan = plan_upload(&headers, b"\r\n\r\n", &server()).unwrap();
    UploadSession::new(&plan)
}

fn told(report: &Report) -> (u64, u64, &'static str) {
    (report.transferred, report.total, report.status)
}

#[test]
fn uploads_are_told_of_on_the_way() {
    let mut session = upload_of(100);
    assert_eq!(told(&session.report(RUNNING)), (0, 100, "running"));
    let (taken, report) = session.first(0);
    assert_eq!(taken, 0);
    assert!(report.is_none());
    let (taken, report) = session.first(30);
    assert_eq!((taken, told(&report.unwrap())), (30, (30, 100, "running")));
    let (taken, report) = session.next(50, 350);
    assert_eq!(taken, 50);
    assert!(report.is_none());
    let (taken, report) = session.next(10, 351);
    assert_eq!((taken, told(&report.unwrap())), (10, (90, 100, "running")));
    assert!(!session.is_whole());
    assert_eq!(session.wanted(), 10);
    let (taken, report) = session.next(40, 0);
    assert_eq!((taken, told(&report.unwrap())), (10, (100, 100, "running")));
    assert!(session.is_whole());
    assert_eq!(session.wanted(), 0);
}

#[test]
fn only_whole_packages_arrive() {
    let mut session = upload_of(2);
    session.first(1);
    let cut = session.ending(&Ok(()));
    assert_eq!((cut.remove_package, cut.remove_metadata), (true, false));
    assert_eq!(told(&cut.report), (1, 2, "error"));
    assert_eq!((cut.answer.status, cut.answer.body.as_str()), (400, "{\"error\":\"incomplete upload\"}"));
    session.next(1, 0);
    let refused = session.ending(&Err("no".to_string()));
    assert_eq!((refused.remove_package, refused.remove_metadata), (false, false));
    assert_eq!(told(&refused.report), (2, 2, "error"));
    assert_eq!((refused.answer.status, refused.answer.body.as_str()), (500, "{\"error\":\"no\"}"));
    let arrived = session.ending(&Ok(()));
    assert_eq!((arrived.remove_package, arrived.remove_metadata), (true, true));
    assert_eq!(told(&arrived.report), (2, 2, "done"));
    assert_eq!((arrived.answer.status, arrived.answer.body.as_str()), (200, "{\"ok\":true}"));
}

#[test]
fn a_silent_server_is_asked_now_and_then() {
    let mut download = Download::new();
    assert_eq!(on_silence(&download, None), Silence::Ask);
    assert_eq!(on_silence(&download, Some(499)), Silence::Wait);
    assert_eq!(on_silence(&download, Some(500)), Silence::Ask);
    assert!(download_report(&download, RUNNING).is_none());
    download.accept(b"HTTP/1.1 200 OK\r\nContent-Length: 3\r\n\r\na").unwrap();
    assert_eq!(on_silence(&download, None), Silence::GiveUp);
    assert_eq!(told(&download_report(&download, RUNNING).unwrap()), (1, 3, "running"));
}

#[test]
fn downloads_end_whole_or_with_a_problem() {
    let mut download = Download::new();
    let ending = download_ending(&download);
    assert!(ending.report.is_none());
    assert_eq!(ending.problem.unwrap(), "服务端响应格式无效，未收到完整响应头");
    download.accept(b"HTTP/1.1 200 OK\r\nContent-Length: 3\r\n\r\na").unwrap();
    let ending = download_ending(&download);
    assert_eq!(told(&ending.report.unwrap()), (1, 3, "error"));
    assert_eq!(ending.problem.unwrap(), "下载未完成：已接收 1 / 3 字节");
    download.accept(b"bc").unwrap();
    let ending = download_ending(&download);
    assert_eq!(told(&ending.report.unwrap()), (3, 3, "running"));
    assert!(ending.problem.is_none());
}

#[test]
fn files_are_sent_with_any_status_and_headers() {
    let headers = pairs(&[("X-One", "1"), ("X-Two", " zwei ")]);
    assert_eq!(
        sized_response_head(404, 7, &headers),
        "HTTP/1.1 404 Not Found\r\nContent-Length: 7\r\nConnection: close\r\nX-One: 1\r\nX-Two:  zwei \r\n\r\n"
    );
    for (status, words) in [(200, "OK"), (403, "Forbidden"), (500, "Internal Server Error"), (401, "OK")] {
        assert_eq!(
            sized_response_head(status, 0, &vec![]),
            format!("HTTP/1.1 {status} {words}\r\nContent-Length: 0\r\nConnection: close\r\n\r\n")
        );
    }
    let mut bytes = sized_response_head(500, 3, &headers).into_bytes();
    bytes.extend_from_slice(b"abc");
    let read = parse_http_response(&bytes).unwrap();
    assert_eq!((read.status, read.body.as_slice()), (500, b"abc".as_slice()));
    let mut download = Download::new();
    assert_eq!(download.accept(&bytes).unwrap(), b"abc");
    assert!(download.finish().is_ok());
    let all = &download.head().unwrap().headers;
    assert_eq!(all[2..].to_vec(), pairs(&[("x-one", "1"), ("x-two", "zwei")]));
    assert_eq!(
        file_response_head(5, "a.zip", "c"),
        "HTTP/1.1 200 OK\r\nContent-Length: 5\r\nConnection: close\r\nContent-Type: application/octet-stream\r\nX-AppManager-Filename: a.zip\r\nX-AppManager-Category: c\r\n\r\n"
    );
}

#[test]
fn an_upload_keeps_its_beginning_however_it_is_cut() {
    let package: Vec<u8> = (0..=255).collect();
    for size in [1usize, 7, 100, 300] {
        let mut session = upload_of(150);
        let mut kept: Vec<u8> = Vec::new();
        for (i, piece) in package.chunks(size).enumerate() {
            let (taken, _) = if i == 0 {
                session.first(piece.len())
            } else {
                session.next(piece.len(), 0)
            };
            kept.extend_from_slice(&piece[..taken]);
        }
        assert_eq!(kept, package[..150].to_vec());
        assert!(session.is_whole());
    }
}
