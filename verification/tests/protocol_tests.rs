use reddw_core::ipc::{
    automation_action, claim_socket, socket_path, Args, AutomationAction, BindOutcome,
    ConnectOutcome, Message, SocketPlan,
};
use reddw_core::keys::{join_key, split_key, str_eq, str_has_prefix};
use reddw_core::protocol::{
    check_response, decode_frame, decode_response, encode_frame, encode_request, PluginRequest,
    PluginResponse, TAG_GET_WALLPAPERS, TAG_REGISTER_INSTANCE,
};
use reddw_core::transport::{ReceiveAction, ReceiveState, MAX_CALL_ATTEMPTS};
use reddw_core::wallhaven::{page_candidates, wants_next_page, Datum, WallHaven};
use reddw_core::HostError;

#[test]
fn split_and_join_keys() {
    let (plugin, instance) = split_key("wallhaven_a").unwrap();
    assert_eq!(plugin, "wallhaven");
    assert_eq!(instance, "a");
    // The split is at the first separator; instance ids may contain more.
    let (plugin, instance) = split_key("p_i_extra").unwrap();
    assert_eq!(plugin, "p");
    assert_eq!(instance, "i_extra");
    assert!(split_key("noseparator").is_none());
    assert_eq!(join_key("wallhaven", "a"), "wallhaven_a");
}

#[test]
fn string_helpers() {
    assert!(str_eq("abc", "abc"));
    assert!(!str_eq("abc", "abd"));
    assert!(!str_eq("abc", "ab"));
    assert!(str_has_prefix("ABCDEFG.png", "ABCDEFG"));
    assert!(!str_has_prefix("AB.png", "ABCDEFG"));
}

#[test]
fn frame_round_trip() {
    let fields = vec![b"hello".to_vec(), Vec::new(), vec![0u8, 255u8]];
    let bytes = encode_frame(42, &fields);
    let (tag, decoded) = decode_frame(&bytes).unwrap();
    assert_eq!(tag, 42);
    assert_eq!(decoded, fields);
}

#[test]
fn truncated_frames_are_transport_errors() {
    let bytes = encode_frame(1, &vec![b"payload".to_vec()]);
    let mut cut = bytes.clone();
    cut.pop();
    assert_eq!(decode_frame(&cut), Err(HostError::Transport));
    let mut padded = bytes.clone();
    padded.push(0);
    assert_eq!(decode_frame(&padded), Err(HostError::Transport));
    assert_eq!(decode_frame(&vec![1, 2]), Err(HostError::Transport));
}

#[test]
fn request_encoding_carries_the_fields() {
    let req = PluginRequest::GetWallpapers {
        instance: "a".to_string(),
        known_ids: vec!["x".to_string(), "y".to_string()],
    };
    let bytes = encode_request(&req);
    let (tag, fields) = decode_frame(&bytes).unwrap();
    assert_eq!(tag, TAG_GET_WALLPAPERS);
    assert_eq!(fields, vec![b"a".to_vec(), b"x".to_vec(), b"y".to_vec()]);

    let bare = encode_request(&PluginRequest::GetName);
    let (tag, fields) = decode_frame(&bare).unwrap();
    assert_eq!(tag, 1);
    assert!(fields.is_empty());
}

#[test]
fn register_response_decodes() {
    let bytes = encode_frame(TAG_REGISTER_INSTANCE, &vec![vec![1u8]]);
    match decode_response(&bytes).unwrap() {
        PluginResponse::RegisterInstance { overwrote } => assert!(overwrote),
        other => panic!("expected the register response, got {other:?}"),
    }
    let bad = encode_frame(TAG_REGISTER_INSTANCE, &vec![vec![7u8]]);
    assert_eq!(decode_response(&bad), Err(HostError::Protocol));
}

#[test]
fn string_responses_decode() {
    let bytes = encode_frame(0, &vec![b"1.2.3".to_vec()]);
    match decode_response(&bytes).unwrap() {
        PluginResponse::InterfaceVersion { version } => assert_eq!(version, "1.2.3"),
        other => panic!("expected the version response, got {other:?}"),
    }
    let invalid_utf8 = encode_frame(0, &vec![vec![0xff, 0xfe]]);
    assert_eq!(decode_response(&invalid_utf8), Err(HostError::Protocol));
    let unknown_tag = encode_frame(99, &vec![]);
    assert_eq!(decode_response(&unknown_tag), Err(HostError::Protocol));
}

#[test]
fn wallpapers_response_decodes_candidates() {
    let date: u64 = 123_456_789;
    let fields = vec![
        b"id1".to_vec(),
        {
            let mut f = vec![1u8];
            f.extend_from_slice(b"A name");
            f
        },
        b"http://img.example/one.png".to_vec(),
        vec![0u8],
        date.to_le_bytes().to_vec(),
        b"wallhaven_a".to_vec(),
        vec![0u8],
    ];
    let bytes = encode_frame(TAG_GET_WALLPAPERS, &fields);
    match decode_response(&bytes).unwrap() {
        PluginResponse::GetWallpapers { wallpapers } => {
            assert_eq!(wallpapers.len(), 1);
            let c = &wallpapers[0];
            assert_eq!(c.id, "id1");
            assert_eq!(c.name.as_deref(), Some("A name"));
            assert_eq!(c.data_url, "http://img.example/one.png");
            assert!(c.info_url.is_none());
            assert_eq!(c.date, 123_456_789);
            assert_eq!(c.source, "wallhaven_a");
            assert!(!c.was_set);
        },
        other => panic!("expected the wallpapers response, got {other:?}"),
    }
    // Seven fields per candidate; anything else is a protocol error.
    let short = encode_frame(TAG_GET_WALLPAPERS, &vec![b"id1".to_vec()]);
    assert_eq!(decode_response(&short), Err(HostError::Protocol));
}

#[test]
fn instances_response_decodes() {
    let bytes = encode_frame(7, &vec![b"a".to_vec(), b"b".to_vec()]);
    match decode_response(&bytes).unwrap() {
        PluginResponse::GetInstances { instances } => {
            assert_eq!(instances, vec!["a".to_string(), "b".to_string()]);
        },
        other => panic!("expected the instances response, got {other:?}"),
    }
}

#[test]
fn dispatch_accepts_matching_variants_only() {
    let req = PluginRequest::GetName;
    assert!(check_response(&req, &PluginResponse::GetName { name: "x".to_string() }).is_ok());
    assert!(check_response(&req, &PluginResponse::Failure { message: "e".to_string() }).is_ok());
    assert_eq!(
        check_response(&req, &PluginResponse::DeregisterInstance),
        Err(HostError::Protocol)
    );
}

#[test]
fn receive_state_drains_then_gives_up() {
    let mut rx = ReceiveState::new();
    assert_eq!(rx.on_chunk(&[1, 2, 3], false), ReceiveAction::ReadMore);
    assert_eq!(rx.on_chunk(&[4], true), ReceiveAction::TryParse);
    assert_eq!(rx.buffer(), &vec![1, 2, 3, 4]);
    let mut last = ReceiveAction::ReadMore;
    for _ in 0..MAX_CALL_ATTEMPTS {
        last = rx.on_parse_failure();
    }
    assert_eq!(last, ReceiveAction::GiveUp);
}

#[test]
fn automation_flags_and_dispatch() {
    let args = Args { background: false, quit: true, update: true, fetch: true };
    assert!(matches!(args.message(), Message::Quit));
    let args = Args { background: false, quit: false, update: true, fetch: false };
    assert!(matches!(args.message(), Message::UpdateWallpaper));
    let args = Args { background: true, quit: false, update: false, fetch: false };
    assert!(matches!(args.message(), Message::Show));
    assert_eq!(automation_action(&Message::Quit), AutomationAction::Exit);
    assert_eq!(automation_action(&Message::Show), AutomationAction::ShowWindow);
    assert_eq!(automation_action(&Message::FetchCache), AutomationAction::Ignore);
}

#[test]
fn socket_path_encodes_the_username() {
    let expected = format!("/tmp/reddw-abc123-{}.sock", hex::encode("me"));
    assert_eq!(socket_path("abc123", "me"), expected);
}

fn datum(id: &str) -> Datum {
    Datum {
        id: id.to_string(),
        url: format!("http://site.example/w/{id}"),
        short_url: String::new(),
        views: 0,
        favorites: 0,
        source: String::new(),
        purity: reddw_core::wallhaven::Purity::Sfw,
        category: reddw_core::wallhaven::Category::General,
        dimension_x: 1920,
        dimension_y: 1080,
        resolution: "1920x1080".to_string(),
        ratio: "16x9".to_string(),
        file_size: 1000,
        file_type: reddw_core::wallhaven::FileType::ImagePng,
        created_at: String::new(),
        colors: Vec::new(),
        path: format!("http://img.example/{id}.png"),
        thumbs: None,
    }
}

#[test]
fn page_candidates_skips_known_ids() {
    let known = vec!["dup".to_string()];
    let page = vec![datum("dup"), datum("new1"), datum("new2")];
    let out = page_candidates(&"wallhaven_a".to_string(), page, &known);
    assert_eq!(out.len(), 2);
    assert_eq!(out[0].id, "new1");
    assert_eq!(out[0].name.as_deref(), Some("new1"));
    assert_eq!(out[0].data_url, "http://img.example/new1.png");
    assert_eq!(out[0].info_url.as_deref(), Some("http://site.example/w/new1"));
    assert_eq!(out[0].source, "wallhaven_a");
    assert!(!out[0].was_set);
    assert_eq!(out[1].id, "new2");
    assert!(wants_next_page(0));
    assert!(!wants_next_page(2));
}

#[test]
fn wallhaven_overwrite_keeps_the_latest_parameters() {
    let mut w = WallHaven::new();
    w.register_instance("a".to_string(), b"first".to_vec()).unwrap();
    w.register_instance("a".to_string(), b"second".to_vec()).unwrap();
    assert_eq!(w.inspect_instance("a").unwrap(), &b"second".to_vec());
    assert_eq!(w.get_instances(), vec!["a".to_string()]);
}

#[test]
fn wallhaven_instances_reject_separator_ids() {
    let mut w = WallHaven::new();
    assert!(w.register_instance("good".to_string(), b"p".to_vec()).is_ok());
    assert_eq!(
        w.register_instance("bad_id".to_string(), Vec::new()),
        Err(HostError::NotFound)
    );
    assert_eq!(w.get_instances(), vec!["good".to_string()]);
    assert_eq!(w.inspect_instance("good").unwrap(), &b"p".to_vec());
    assert!(w.deregister_instance("good").is_ok());
    assert_eq!(w.deregister_instance("good"), Err(HostError::NotFound));
}

#[test]
fn socket_claim_decision_table() {
    assert_eq!(
        claim_socket(BindOutcome::Bound, ConnectOutcome::OtherFailure),
        SocketPlan::Serve
    );
    assert_eq!(
        claim_socket(BindOutcome::AddressInUse, ConnectOutcome::Connected),
        SocketPlan::SendAndExit
    );
    assert_eq!(
        claim_socket(BindOutcome::AddressInUse, ConnectOutcome::Refused),
        SocketPlan::RemoveStaleAndRebind
    );
    assert_eq!(
        claim_socket(BindOutcome::OtherFailure, ConnectOutcome::Connected),
        SocketPlan::Fail
    );
}

#[test]
fn assets_and_blob_responses_decode() {
    let fields = vec![
        b"index.html".to_vec(),
        vec![1u8, 2, 3],
        b"app.js".to_vec(),
        vec![9u8],
    ];
    let bytes = encode_frame(2, &fields);
    match decode_response(&bytes).unwrap() {
        PluginResponse::GetAssets { assets } => {
            assert_eq!(assets.len(), 2);
            assert_eq!(assets[0].0, "index.html");
            assert_eq!(assets[0].1, vec![1, 2, 3]);
            assert_eq!(assets[1].0, "app.js");
            assert_eq!(assets[1].1, vec![9]);
        },
        other => panic!("expected the assets response, got {other:?}"),
    }
    let odd = encode_frame(2, &vec![b"index.html".to_vec()]);
    assert_eq!(decode_response(&odd), Err(HostError::Protocol));

    let params = encode_frame(3, &vec![vec![7u8, 8]]);
    match decode_response(&params).unwrap() {
        PluginResponse::InspectInstance { params } => assert_eq!(params, vec![7, 8]),
        other => panic!("expected the inspect response, got {other:?}"),
    }

    let ack = encode_frame(5, &vec![]);
    assert!(matches!(
        decode_response(&ack).unwrap(),
        PluginResponse::DeregisterInstance
    ));
    let bad_ack = encode_frame(5, &vec![vec![1u8]]);
    assert_eq!(decode_response(&bad_ack), Err(HostError::Protocol));
}
