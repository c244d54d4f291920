//! End-to-end exercises of the protocol engine on concrete requests.

use rustymedia::error::MediaError;
use rustymedia::request::Request;
use rustymedia::server::{HttpMethod, Reply, Server, ServerArgs};
use rustymedia::soap::parse_browse_request;
use rustymedia::tree::{ContentEntry, ContentTree};

fn entry(id: &str, parent: &str, title: &str, is_dir: bool) -> ContentEntry {
    ContentEntry {
        id: id.to_string(),
        parent_id: parent.to_string(),
        title: title.to_string(),
        is_dir,
        class: if is_dir {
            "object.container.storageFolder".to_string()
        } else {
            "object.item.videoItem".to_string()
        },
    }
}

fn sample_server() -> Server {
    let mut tree = ContentTree::new();
    tree.add(entry("0", "-1", "root", true));
    tree.add(entry("1", "0", "Movie.mkv", false));
    tree.add(entry("2", "0", "Shows", true));
    tree.add(entry("3", "2", "Pilot.mkv", false));
    Server::new(ServerArgs {
        uri: "http://10.0.0.1:4950".to_string(),
        name: "RustyMedia".to_string(),
        uuid: "06289e13-a832-4d76-be0b-00151d449864".to_string(),
        tree,
    })
}

fn browse_body(object_id: &str) -> Vec<u8> {
    format!(
        "<?xml version=\"1.0\"?><s:Envelope xmlns:s=\"http://schemas.xmlsoap.org/soap/envelope/\"><s:Body><u:Browse xmlns:u=\"urn:schemas-upnp-org:service:ContentDirectory:1\"><ObjectID>{}</ObjectID><BrowseFlag>BrowseDirectChildren</BrowseFlag></u:Browse></s:Body></s:Envelope>",
        object_id
    )
    .into_bytes()
}

fn soap_header(action: &str) -> Option<String> {
    Some(format!(
        "\"urn:schemas-upnp-org:service:ContentDirectory:1#{}\"",
        action
    ))
}

fn page(r: Reply) -> rustymedia::server::HttpResponse {
    match r {
        Reply::Page(p) => p,
        Reply::Stream(_) => panic!("expected a page, got a stream"),
    }
}

#[test]
fn pop_consumes_one_segment_per_call() {
    let mut req = Request::new("/content/control".to_string());
    assert_eq!(req.pop(), "content");
    assert_eq!(req.pop(), "control");
    assert_eq!(req.pop(), "");
    assert_eq!(req.pop(), "");
}

#[test]
fn pop_yields_empty_trailing_segment() {
    let mut req = Request::new("/video/".to_string());
    assert_eq!(req.pop(), "video");
    assert_eq!(req.pop(), "");
}

#[test]
fn decoded_path_inverts_percent_encoding() {
    let mut req = Request::new("/video/My%20Movie%2Fpart1.mkv".to_string());
    assert_eq!(req.pop(), "video");
    assert_eq!(req.decoded_path().unwrap(), "My Movie/part1.mkv");
}

#[test]
fn decoded_path_decodes_multibyte_utf8() {
    let mut req = Request::new("/video/caf%C3%A9.mkv".to_string());
    req.pop();
    assert_eq!(req.decoded_path().unwrap(), "caf\u{e9}.mkv");
}

#[test]
fn decoded_path_rejects_invalid_utf8() {
    let mut req = Request::new("/video/%FF%FE".to_string());
    req.pop();
    match req.decoded_path() {
        Err(MediaError::Message(m)) => {
            assert_eq!(m, "Error percent-decoding path to utf8.")
        }
        other => panic!("expected a decode error, got {:?}", other),
    }
}

#[test]
fn error_messages_follow_taxonomy() {
    assert_eq!(
        MediaError::NotFound("9".to_string()).message(),
        "Not found: 9"
    );
    assert_eq!(
        MediaError::NotAFile("Shows".to_string()).message(),
        "Not a file: Shows"
    );
    assert_eq!(MediaError::ExecuteError.message(), "Execute error");
}

#[test]
fn xml_escape_replaces_markup_characters() {
    assert_eq!(
        rustymedia::xml::xml_escape("a&b<c>d\"e'f"),
        "a&amp;b&lt;c&gt;d&quot;e&apos;f"
    );
}

#[test]
fn parse_browse_request_reads_object_id() {
    let req = parse_browse_request(browse_body("0")).unwrap();
    assert_eq!(req.object_id, "0");
}

#[test]
fn parse_browse_request_tolerates_namespace_prefix() {
    let body = b"<e:Envelope xmlns:e=\"ns\"><e:Body><u:Browse><u:ObjectID>42</u:ObjectID></u:Browse></e:Body></e:Envelope>".to_vec();
    let req = parse_browse_request(body).unwrap();
    assert_eq!(req.object_id, "42");
}

#[test]
fn parse_browse_request_rejects_missing_object_id() {
    let body = b"<Envelope><Body></Body></Envelope>".to_vec();
    match parse_browse_request(body) {
        Err(MediaError::Message(m)) => assert!(m.starts_with("Error parsing xml:")),
        other => panic!("expected a parse error, got {:?}", other),
    }
}

#[test]
fn routing_root_xml_contains_uuid() {
    let srv = sample_server();
    let p = page(srv.call(HttpMethod::Get, "/root.xml".to_string(), &None, Vec::new()));
    assert_eq!(p.status, 200);
    assert!(p.body.contains("06289e13-a832-4d76-be0b-00151d449864"));
    assert!(p.body.contains("<friendlyName>RustyMedia</friendlyName>"));
}

#[test]
fn routing_root_xml_rejects_post() {
    let srv = sample_server();
    let p = page(srv.call(HttpMethod::Post, "/root.xml".to_string(), &None, Vec::new()));
    assert_eq!(p.status, 405);
}

#[test]
fn routing_unknown_path_is_not_found() {
    let srv = sample_server();
    let p = page(srv.call(HttpMethod::Get, "/nonexistent".to_string(), &None, Vec::new()));
    assert_eq!(p.status, 404);
}

#[test]
fn routing_serves_service_descriptions() {
    let srv = sample_server();
    let c = page(srv.call(HttpMethod::Get, "/connection/desc.xml".to_string(), &None, Vec::new()));
    assert_eq!(c.status, 200);
    assert_eq!(c.body, rustymedia::server::CONNECTION_XML);
    let d = page(srv.call(HttpMethod::Get, "/content/desc.xml".to_string(), &None, Vec::new()));
    assert_eq!(d.status, 200);
    assert_eq!(d.body, rustymedia::server::CONTENT_XML);
}

#[test]
fn soap_missing_header_is_fault_with_status_200() {
    let srv = sample_server();
    let p = page(srv.call(
        HttpMethod::Post,
        "/content/control".to_string(),
        &None,
        browse_body("0"),
    ));
    assert_eq!(p.status, 200);
    assert!(p.body.contains("<s:Fault>"));
    assert!(p.body.contains("No Soapaction header."));
}

#[test]
fn soap_namespace_mismatch_is_fault_with_status_200() {
    let srv = sample_server();
    let header = Some("\"urn:wrong-service:1#Browse\"".to_string());
    let p = page(srv.call(
        HttpMethod::Post,
        "/content/control".to_string(),
        &header,
        browse_body("0"),
    ));
    assert_eq!(p.status, 200);
    assert!(p
        .body
        .contains("Unknown action namespace: &quot;urn:wrong-service:1#Browse&quot;"));
}

#[test]
fn soap_unknown_action_is_fault_with_status_200() {
    let srv = sample_server();
    let p = page(srv.call(
        HttpMethod::Post,
        "/content/control".to_string(),
        &soap_header("Destroy"),
        browse_body("0"),
    ));
    assert_eq!(p.status, 200);
    assert!(p.body.contains("Unknown action &quot;Destroy&quot;"));
}

#[test]
fn browse_partitions_children_into_containers_and_items() {
    let srv = sample_server();
    let b = srv.call_dlna_browse("0").unwrap();
    assert_eq!(b.containers.len(), 1);
    assert_eq!(b.containers[0].id, "2");
    assert_eq!(b.containers[0].parent_id, "0");
    assert_eq!(b.containers[0].title, "Shows");
    assert!(b.containers[0].restricted);
    assert_eq!(b.containers[0].child_count, 1);
    assert_eq!(b.containers[0].class, "object.container.storageFolder");
    assert_eq!(b.items.len(), 1);
    assert_eq!(b.items[0].id, "1");
    assert_eq!(b.items[0].parent_id, "0");
    assert_eq!(b.items[0].title, "Movie.mkv");
    assert_eq!(b.items[0].res.len(), 1);
    assert_eq!(b.items[0].res[0].uri, "http://10.0.0.1:4950/video/1");
    assert_eq!(
        b.items[0].res[0].protocol_info,
        "http-get:*:video/x-matroska:*"
    );
    assert_eq!(b.number_returned, 2);
    assert_eq!(b.total_matches, 2);
    assert_eq!(b.update_id, 1);
}

#[test]
fn browse_of_leaf_is_not_a_directory_error() {
    let srv = sample_server();
    match srv.call_dlna_browse("1") {
        Err(MediaError::NotADirectory(p)) => assert_eq!(p, "1"),
        other => panic!("expected NotADirectory, got {:?}", other),
    }
}

#[test]
fn end_to_end_browse_lists_both_children() {
    let srv = sample_server();
    let p = page(srv.call(
        HttpMethod::Post,
        "/content/control".to_string(),
        &soap_header("Browse"),
        browse_body("0"),
    ));
    assert_eq!(p.status, 200);
    assert!(p.body.contains("<u:BrowseResponse"));
    assert!(p.body.contains("&lt;container id=&quot;2&quot;"));
    assert!(p.body.contains("&lt;item id=&quot;1&quot;"));
    assert!(p.body.contains("Movie.mkv"));
    assert!(p.body.contains("/video/1&lt;/res&gt;"));
    assert!(p.body.contains("<NumberReturned>2</NumberReturned>"));
    assert!(p.body.contains("<TotalMatches>2</TotalMatches>"));
}

#[test]
fn browse_unknown_id_is_fault_never_500() {
    let srv = sample_server();
    let p = page(srv.call(
        HttpMethod::Post,
        "/content/control".to_string(),
        &soap_header("Browse"),
        browse_body("99"),
    ));
    assert_eq!(p.status, 200);
    assert!(p.body.contains("<s:Fault>"));
    assert!(p.body.contains("Not found: 99"));
}

#[test]
fn browse_malformed_body_is_fault_with_status_200() {
    let srv = sample_server();
    let p = page(srv.call(
        HttpMethod::Post,
        "/content/control".to_string(),
        &soap_header("Browse"),
        b"this is not xml".to_vec(),
    ));
    assert_eq!(p.status, 200);
    assert!(p.body.contains("<s:Fault>"));
    assert!(p.body.contains("Error parsing xml:"));
}

#[test]
fn video_of_leaf_streams_the_entry() {
    let srv = sample_server();
    match srv.call(HttpMethod::Get, "/video/1".to_string(), &None, Vec::new()) {
        Reply::Stream(plan) => assert_eq!(plan.id, "1"),
        Reply::Page(p) => panic!("expected a stream, got status {}", p.status),
    }
}

#[test]
fn video_of_directory_is_not_a_file_error() {
    let srv = sample_server();
    let mut req = Request::new("/video/2".to_string());
    req.pop();
    match srv.call_video(&req) {
        Err(MediaError::NotAFile(p)) => assert_eq!(p, "2"),
        other => panic!("expected NotAFile, got {:?}", other),
    }
    let p = page(srv.call(HttpMethod::Get, "/video/2".to_string(), &None, Vec::new()));
    assert_eq!(p.status, 500);
    assert_eq!(p.body, "Internal Error");
}

#[test]
fn video_unknown_id_is_internal_error_page() {
    let srv = sample_server();
    let p = page(srv.call(HttpMethod::Get, "/video/none".to_string(), &None, Vec::new()));
    assert_eq!(p.status, 500);
}

#[test]
fn container_rendering_has_exact_shape() {
    let c = rustymedia::xml::Container {
        id: "2".to_string(),
        parent_id: "0".to_string(),
        title: "A & B".to_string(),
        restricted: true,
        child_count: 12,
        class: "object.container".to_string(),
    };
    assert_eq!(
        rustymedia::xml::render_container(&c),
        "<container id=\"2\" parentID=\"0\" restricted=\"true\" childCount=\"12\"><dc:title>A &amp; B</dc:title><upnp:class>object.container</upnp:class></container>"
    );
}

#[test]
fn pop_handles_consecutive_slashes() {
    let mut req = Request::new("/a//b".to_string());
    assert_eq!(req.pop(), "a");
    assert_eq!(req.pop(), "");
    assert_eq!(req.pop(), "b");
}

#[test]
fn path_returns_unconsumed_remainder() {
    let mut req = Request::new("/content/control".to_string());
    req.pop();
    assert_eq!(req.path(), "control");
}

#[test]
fn browse_of_empty_directory_lists_nothing() {
    let mut tree = ContentTree::new();
    tree.add(entry("0", "-1", "root", true));
    let srv = Server::new(ServerArgs {
        uri: "http://10.0.0.1:4950".to_string(),
        name: "RustyMedia".to_string(),
        uuid: "u".to_string(),
        tree,
    });
    let b = srv.call_dlna_browse("0").unwrap();
    assert_eq!(b.containers.len(), 0);
    assert_eq!(b.items.len(), 0);
    assert_eq!(b.number_returned, 0);
    assert_eq!(b.total_matches, 0);
}

#[test]
fn lookup_takes_the_first_of_equal_ids() {
    let mut tree = ContentTree::new();
    tree.add(entry("0", "-1", "root", true));
    tree.add(entry("dup", "0", "first", false));
    tree.add(entry("dup", "0", "second", false));
    let srv = Server::new(ServerArgs {
        uri: "http://h".to_string(),
        name: "n".to_string(),
        uuid: "u".to_string(),
        tree,
    });
    let b = srv.call_dlna_browse("0").unwrap();
    assert_eq!(b.items.len(), 2);
    match srv.call(HttpMethod::Get, "/video/dup".to_string(), &None, Vec::new()) {
        Reply::Stream(plan) => assert_eq!(plan.id, "dup"),
        Reply::Page(p) => panic!("expected a stream, got status {}", p.status),
    }
}

#[test]
fn browse_escapes_markup_in_titles() {
    let mut tree = ContentTree::new();
    tree.add(entry("0", "-1", "root", true));
    tree.add(entry("1", "0", "Tom & Jerry <1>.mkv", false));
    let srv = Server::new(ServerArgs {
        uri: "http://h".to_string(),
        name: "n".to_string(),
        uuid: "u".to_string(),
        tree,
    });
    let p = page(srv.call(
        HttpMethod::Post,
        "/content/control".to_string(),
        &soap_header("Browse"),
        browse_body("0"),
    ));
    assert_eq!(p.status, 200);
    assert!(p
        .body
        .contains("Tom &amp;amp; Jerry &amp;lt;1&amp;gt;.mkv"));
}

#[test]
fn soap_header_without_quotes_is_accepted() {
    let srv = sample_server();
    let header = Some("urn:schemas-upnp-org:service:ContentDirectory:1#Browse".to_string());
    let p = page(srv.call(
        HttpMethod::Post,
        "/content/control".to_string(),
        &header,
        browse_body("0"),
    ));
    assert_eq!(p.status, 200);
    assert!(p.body.contains("<u:BrowseResponse"));
}

#[test]
fn body_vec_accumulates_chunks_in_order() {
    let chunks = vec![b"<a>".to_vec(), Vec::new(), b"x</a>".to_vec()];
    assert_eq!(rustymedia::request::body_vec(&chunks), b"<a>x</a>".to_vec());
}
