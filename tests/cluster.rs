use radiology_cluster::cluster::{RadiologyCluster, RadiologyResult};
use radiology_cluster::correlation::Delivery;
use radiology_cluster::error::ClusterError;
use radiology_cluster::request::{encode_metadata, frame_object, frame_request, RadiologyImage};

fn ct_image() -> RadiologyImage {
    let mut img = RadiologyImage::new("IMG001".to_string(), vec![0; 10]);
    img.insert_metadata("modality".to_string(), "CT".to_string());
    img
}

fn image(id: &str) -> RadiologyImage {
    RadiologyImage::new(id.to_string(), vec![0, 1, 2, 3])
}

#[test]
fn ct_scan_scenario_returns_decoded_result() {
    let mut cluster = RadiologyCluster::new();
    assert!(cluster.initialize_context("ct-scan-context", "medical-imaging-model").is_ok());
    let req = cluster.submit_image("ct-scan-context", ct_image(), 5).unwrap();
    assert_eq!(req.correlation_id, 1);
    assert_eq!(req.model_name, "medical-imaging-model");
    assert_eq!(
        req.text,
        r#"{"image_id":"IMG001","model":"medical-imaging-model","prompt":"You are a radiology analysis system. Analyze the following medical image:\n\n{\"modality\":\"CT\"}"}"#
    );
    assert!(cluster.is_pending(1));

    let body = r#"{"status":"success","findings":"No abnormalities detected","confidence":0.92}"#;
    let value: serde_json::Value = serde_json::from_str(body).unwrap();
    assert_eq!(cluster.on_response(req.correlation_id), Delivery::Resolve(1));
    let confidence = value["confidence"].as_f64().unwrap();
    let result = RadiologyResult::new(
        "IMG001".to_string(),
        value["findings"].as_str().unwrap().to_string(),
        (confidence * 1000.0).round() as u16,
        String::new(),
    )
    .unwrap();
    assert_eq!(value["status"].as_str(), Some("success"));
    assert_eq!(result.findings, "No abnormalities detected");
    assert_eq!(result.confidence_permille, 920);
    assert_eq!(cluster.pending_count(), 0);
}

#[test]
fn out_of_order_responses_reach_their_own_callers() {
    let mut cluster = RadiologyCluster::new();
    cluster.initialize_context("c", "m").unwrap();
    let a = cluster.submit_image("c", image("A"), 0).unwrap();
    let b = cluster.submit_image("c", image("B"), 0).unwrap();
    assert_ne!(a.correlation_id, b.correlation_id);
    assert_eq!(cluster.on_response(b.correlation_id), Delivery::Resolve(b.correlation_id));
    assert!(cluster.is_pending(a.correlation_id));
    assert_eq!(cluster.on_response(a.correlation_id), Delivery::Resolve(a.correlation_id));
    assert_eq!(cluster.pending_count(), 0);
}

#[test]
fn unmatched_response_is_dropped() {
    let mut cluster = RadiologyCluster::new();
    cluster.initialize_context("c", "m").unwrap();
    let a = cluster.submit_image("c", image("A"), 0).unwrap();
    assert_eq!(cluster.on_response(42), Delivery::Drop);
    assert!(cluster.is_pending(a.correlation_id));
    assert_eq!(cluster.pending_count(), 1);
    // a late duplicate of an answered response is dropped too
    assert_eq!(cluster.on_response(a.correlation_id), Delivery::Resolve(a.correlation_id));
    assert_eq!(cluster.on_response(a.correlation_id), Delivery::Drop);
}

#[test]
fn unregistered_context_fails_without_sending() {
    let mut cluster = RadiologyCluster::new();
    cluster.initialize_context("c", "m").unwrap();
    let r = cluster.submit_image("missing", image("A"), 0);
    assert_eq!(r.err(), Some(ClusterError::ContextNotFound));
    assert_eq!(cluster.pending_count(), 0);
    let next = cluster.submit_image("c", image("A"), 0).unwrap();
    assert_eq!(next.correlation_id, 1);
}

#[test]
fn initialize_context_is_idempotent() {
    let mut cluster = RadiologyCluster::new();
    cluster.initialize_context("test-context", "test-model").unwrap();
    let first = cluster.resolve("test-context").unwrap();
    cluster.initialize_context("test-context", "test-model").unwrap();
    assert_eq!(cluster.resolve("test-context").unwrap(), first);
    assert_eq!(first, "test-model");
}

#[test]
fn later_registration_overwrites_and_removal_forgets() {
    let mut cluster = RadiologyCluster::new();
    cluster.initialize_context("c", "m1").unwrap();
    cluster.initialize_context("d", "m3").unwrap();
    cluster.initialize_context("c", "m2").unwrap();
    assert_eq!(cluster.resolve("c").unwrap(), "m2");
    assert_eq!(cluster.resolve("d").unwrap(), "m3");
    cluster.remove_context("c");
    assert_eq!(cluster.resolve("c").err(), Some(ClusterError::ContextNotFound));
    cluster.remove_context("c");
    assert_eq!(cluster.resolve("d").unwrap(), "m3");
}

#[test]
fn connection_close_fails_every_pending_request() {
    let mut cluster = RadiologyCluster::new();
    cluster.initialize_context("c", "m").unwrap();
    for name in ["A", "B", "C"] {
        cluster.submit_image("c", image(name), 0).unwrap();
    }
    cluster.on_response(2);
    let mut closed = cluster.on_connection_closed();
    closed.sort();
    assert_eq!(closed, vec![1, 3]);
    assert_eq!(cluster.pending_count(), 0);
    assert!(!cluster.is_open());
    let r = cluster.submit_image("c", image("D"), 0);
    assert_eq!(r.err(), Some(ClusterError::ConnectionClosed));
}

#[test]
fn close_with_nothing_pending_returns_nothing() {
    let mut cluster = RadiologyCluster::new();
    assert!(cluster.on_connection_closed().is_empty());
}

#[test]
fn overdue_requests_expire() {
    let mut cluster = RadiologyCluster::new();
    cluster.initialize_context("c", "m").unwrap();
    let a = cluster.submit_image("c", image("A"), 10).unwrap();
    let b = cluster.submit_image("c", image("B"), 20).unwrap();
    let c = cluster.submit_image("c", image("C"), 29).unwrap();
    let expired = cluster.expire_overdue(30, 10);
    assert_eq!(expired, vec![a.correlation_id, b.correlation_id]);
    assert!(cluster.is_pending(c.correlation_id));
    assert_eq!(cluster.pending_count(), 1);
    assert!(cluster.expire_overdue(30, 10).is_empty());
}

#[test]
fn send_failure_and_timeout_release_the_request() {
    let mut cluster = RadiologyCluster::new();
    cluster.initialize_context("c", "m").unwrap();
    let a = cluster.submit_image("c", image("A"), 0).unwrap();
    let b = cluster.submit_image("c", image("B"), 0).unwrap();
    assert_eq!(cluster.on_send_failed(a.correlation_id), ClusterError::TransportWrite);
    assert_eq!(cluster.on_timeout(b.correlation_id), ClusterError::Timeout);
    assert_eq!(cluster.pending_count(), 0);
    assert_eq!(cluster.on_response(b.correlation_id), Delivery::Drop);
}

#[test]
fn get_results_reports_not_supported() {
    let cluster = RadiologyCluster::new();
    assert_eq!(cluster.get_results("ct-scan-context").err(), Some(ClusterError::NotSupported));
}

#[test]
fn confidence_above_one_is_refused() {
    let r = RadiologyResult::new("x".to_string(), "f".to_string(), 1001, String::new());
    assert_eq!(r.err(), Some(ClusterError::Decode));
    let ok = RadiologyResult::new("x".to_string(), "f".to_string(), 1000, "d".to_string());
    assert!(ok.is_ok());
}

#[test]
fn metadata_strings_are_escaped() {
    let pairs = vec![
        ("note".to_string(), "say \"hi\"".to_string()),
        ("a\\b".to_string(), "line\nnext".to_string()),
    ];
    assert_eq!(
        encode_metadata(&pairs),
        r#"{"note":"say \"hi\"","a\\b":"line\nnext"}"#
    );
    assert_eq!(encode_metadata(&vec![]), "{}");
    let controls = vec![("t".to_string(), "\t\r\u{8}\u{c}\u{1}\u{1f}/é".to_string())];
    assert_eq!(encode_metadata(&controls), r#"{"t":"\t\r\b\f\u0001\u001f/é"}"#);
}

#[test]
fn frames_join_encoded_parts() {
    let members = vec![("\"k\"".to_string(), "\"v\"".to_string()), ("\"x\"".to_string(), "1".to_string())];
    assert_eq!(frame_object(&members), r#"{"k":"v","x":1}"#);
    assert_eq!(frame_request("\"i\"", "\"m\"", "\"p\""), r#"{"image_id":"i","model":"m","prompt":"p"}"#);
}

#[test]
fn metadata_insert_overwrites_in_place() {
    let mut img = RadiologyImage::new("TEST001".to_string(), vec![0, 1, 2, 3]);
    img.insert_metadata("patient_id".to_string(), "TEST123".to_string());
    img.insert_metadata("modality".to_string(), "CT".to_string());
    img.insert_metadata("modality".to_string(), "MRI".to_string());
    assert_eq!(
        *img.metadata(),
        vec![
            ("patient_id".to_string(), "TEST123".to_string()),
            ("modality".to_string(), "MRI".to_string()),
        ]
    );
    assert_eq!(encode_metadata(img.metadata()), r#"{"patient_id":"TEST123","modality":"MRI"}"#);
}

#[test]
fn three_responses_in_reverse_order() {
    let mut cluster = RadiologyCluster::new();
    cluster.initialize_context("c", "m").unwrap();
    let ids: Vec<i64> = ["A", "B", "C"]
        .iter()
        .map(|n| cluster.submit_image("c", image(n), 0).unwrap().correlation_id)
        .collect();
    assert_eq!(ids, vec![1, 2, 3]);
    for id in ids.iter().rev() {
        assert_eq!(cluster.on_response(*id), Delivery::Resolve(*id));
    }
    assert_eq!(cluster.pending_count(), 0);
}

#[test]
fn test_radiology_cluster_initialization() {
    let mut cluster = RadiologyCluster::new();
    let result = cluster.initialize_context("test-context", "test-model");
    assert!(result.is_ok(), "Failed to initialize context");

    let mut test_image = RadiologyImage::new("TEST001".to_string(), vec![0, 1, 2, 3]);
    test_image.insert_metadata("patient_id".to_string(), "TEST123".to_string());
    test_image.insert_metadata("modality".to_string(), "MRI".to_string());

    let request = cluster.submit_image("test-context", test_image, 0);
    assert!(request.is_ok(), "Failed to submit image");
    let request = request.unwrap();
    assert_eq!(request.model_name, "test-model");

    assert_eq!(request.correlation_id, 1);
    assert_eq!(
        request.text,
        r#"{"image_id":"TEST001","model":"test-model","prompt":"You are a radiology analysis system. Analyze the following medical image:\n\n{\"patient_id\":\"TEST123\",\"modality\":\"MRI\"}"}"#
    );
    assert!(cluster.is_pending(request.correlation_id));
    assert_eq!(cluster.on_response(request.correlation_id), Delivery::Resolve(request.correlation_id));
    assert_eq!(cluster.pending_count(), 0);
}

#[test]
fn reopened_connection_takes_requests_with_fresh_ids() {
    let mut cluster = RadiologyCluster::new();
    cluster.initialize_context("c", "m").unwrap();
    let a = cluster.submit_image("c", image("A"), 0).unwrap();
    assert_eq!(cluster.on_connection_closed(), vec![a.correlation_id]);
    assert_eq!(cluster.submit_image("c", image("B"), 0).err(), Some(ClusterError::ConnectionClosed));
    cluster.on_connection_opened();
    assert!(cluster.is_open());
    assert_eq!(cluster.resolve("c").unwrap(), "m");
    let b = cluster.submit_image("c", image("B"), 0).unwrap();
    assert_eq!(b.correlation_id, 2);
    assert_eq!(cluster.on_response(a.correlation_id), Delivery::Drop);
    assert_eq!(cluster.on_response(b.correlation_id), Delivery::Resolve(2));
}
