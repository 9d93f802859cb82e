use trojan_rs::protocol::address::{Address, SocketAddr};
use trojan_rs::protocol::tls::acceptor::TrojanTlsAcceptorConfig;
use trojan_rs::protocol::trojan::acceptor::TrojanAcceptorConfig;
use trojan_rs::protocol::vless::acceptor::VlessAcceptorConfig;
use trojan_rs::protocol::websocket::acceptor::WebSocketAcceptorConfig;
use trojan_rs::proxy::config::{GlobalConfig, LaunchError, LaunchPlan, LogLevel, ServerConfig};
use trojan_rs::proxy::meter::{count_batch, MeteredStream, TrafficMeter, METRICS_FLUSH_BYTES};
use trojan_rs::proxy::metrics::{ClientMetrics, GlobalMetrics, TrafficDirection};
use trojan_rs::proxy::relay::{Resolution, ResolvedAddresses};

const SECOND: u64 = 1_000_000_000;

#[test]
fn batches_metric_updates_until_the_flush_threshold() {
    let mut client = ClientMetrics::new(1, "test".to_string(), 0);
    let mut meter = TrafficMeter::upload(0);

    if let Some(batch) = meter.record(METRICS_FLUSH_BYTES - 1, 0) {
        client.count(meter.direction, batch);
    }
    assert_eq!(client.upload_bytes, 0);

    if let Some(batch) = meter.record(1, 0) {
        client.count(meter.direction, batch);
    }
    assert_eq!(client.upload_bytes, METRICS_FLUSH_BYTES);
}

#[test]
fn flushes_the_remaining_bytes_when_the_meter_is_dropped() {
    let mut client = ClientMetrics::new(1, "test".to_string(), 0);
    {
        let mut meter = TrafficMeter::download(0);
        assert!(meter.record(1, 0).is_none());
        // What its owner does with a meter that goes away.
        if let Some(batch) = meter.flush(0) {
            client.count(meter.direction, batch);
        }
    }
    assert_eq!(client.download_bytes, 1);
}

#[test]
fn half_a_batch_is_flushed_after_a_second() {
    let mut meter = TrafficMeter::upload(0);
    assert_eq!(meter.record(32767, 5 * SECOND), None);
    assert_eq!(meter.record(1, SECOND - 1), None);
    assert_eq!(meter.record(1, SECOND), Some(32769));
    assert_eq!(meter.record(32768, SECOND + 1), None);
    assert_eq!(meter.record(0, 2 * SECOND), Some(32768));
    assert_eq!(meter.flush(2 * SECOND), None);
}

#[test]
fn every_byte_is_counted_once() {
    let mut metrics = GlobalMetrics::new();
    let mut client = ClientMetrics::new(metrics.generate_id(), "peer".to_string(), 0);
    metrics.add_client(&client);
    let mut stream = MeteredStream::new((), 0);
    let (mut up, mut down) = (0, 0);
    for i in 0..400u64 {
        let now = i * SECOND / 7;
        let bytes = i * 37 % 5000;
        up += bytes;
        let batch = stream.upload_meter.record(bytes, now);
        count_batch(&mut metrics, &mut client, TrafficDirection::Upload, batch);
        down += 3 * bytes;
        let batch = stream.download_meter.record(3 * bytes, now);
        count_batch(&mut metrics, &mut client, TrafficDirection::Download, batch);
        if i % 50 == 49 {
            let batch = stream.download_meter.flush(now);
            count_batch(&mut metrics, &mut client, TrafficDirection::Download, batch);
            assert_eq!(client.download_bytes, down);
        }
        assert_eq!(client.upload_bytes + stream.upload_meter.pending_bytes, up);
        assert_eq!(client.download_bytes + stream.download_meter.pending_bytes, down);
    }
    let batch = stream.upload_meter.flush(0);
    count_batch(&mut metrics, &mut client, TrafficDirection::Upload, batch);
    let told = metrics.snapshot(90 * SECOND);
    assert_eq!((told.total_upload, told.total_download), (up, down));
    assert_eq!(told.clients[0].upload_bytes, up);
    assert_eq!(told.clients[0].download_bytes, down);
    assert_eq!(told.clients[0].uptime_secs, 90);
}

#[test]
fn a_client_off_the_list_keeps_its_own_counts() {
    let mut metrics = GlobalMetrics::new();
    let mut client = ClientMetrics::new(metrics.generate_id(), "peer".to_string(), 0);
    metrics.add_client(&client);
    let mut meter = TrafficMeter::upload(0);
    let batch = meter.record(METRICS_FLUSH_BYTES, 0);
    count_batch(&mut metrics, &mut client, meter.direction, batch);
    assert!(meter.record(7, 0).is_none());
    metrics.remove_client(client.id);
    let batch = meter.flush(0);
    count_batch(&mut metrics, &mut client, meter.direction, batch);
    assert_eq!(client.upload_bytes, METRICS_FLUSH_BYTES + 7);
    let told = metrics.snapshot(0);
    assert!(told.clients.is_empty());
    assert_eq!(told.total_upload, METRICS_FLUSH_BYTES + 7);
}

#[test]
fn the_newest_clients_are_told_first() {
    let mut metrics = GlobalMetrics::new();
    let mut clients: Vec<ClientMetrics> = Vec::new();
    for start in 1..=5u64 {
        let id = metrics.generate_id();
        let client = ClientMetrics::new(id, format!("peer {id}"), start * SECOND);
        metrics.add_client(&client);
        clients.push(client);
    }
    metrics.remove_client(3);
    metrics.count(&mut clients[1], TrafficDirection::Download, 10);
    metrics.count(&mut clients[2], TrafficDirection::Download, 1);
    let told = metrics.snapshot(7 * SECOND + 1);
    let ids: Vec<u64> = told.clients.iter().map(|client| client.id).collect();
    assert_eq!(ids, [5, 4, 2, 1]);
    assert_eq!(told.clients[2].download_bytes, 10);
    assert_eq!(told.clients[2].addr, "peer 2");
    assert_eq!(told.clients[2].uptime_secs, 5);
    assert_eq!(told.total_download, 11);
    assert_eq!(clients[2].download_bytes, 1);
}

#[test]
fn names_are_resolved_once() {
    let name = Address::DomainNameAddress("dns.example".to_string(), 53);
    let other = Address::DomainNameAddress("dns.example".to_string(), 54);
    let mut resolved = ResolvedAddresses::new();
    assert!(matches!(resolved.resolve_address(&name), Resolution::Unknown));
    resolved.store(&name, SocketAddr::V4([9, 9, 9, 9], 53));
    assert!(matches!(
        resolved.resolve_address(&name),
        Resolution::Known(SocketAddr::V4([9, 9, 9, 9], 53))
    ));
    assert!(matches!(resolved.resolve_address(&other), Resolution::Unknown));
    // A link-local address keeps its flow information and its scope.
    let mut link_local = [0; 16];
    (link_local[0], link_local[1], link_local[15]) = (0xfe, 0x80, 1);
    resolved.store(&other, SocketAddr::V6(link_local, 54, 9, 3));
    match resolved.resolve_address(&other) {
        Resolution::Known(SocketAddr::V6(octets, 54, 9, 3)) => assert_eq!(octets, link_local),
        _ => panic!("expected the stored address"),
    }
    let scoped = Address::SocketAddress(SocketAddr::V6(link_local, 54, 0, 3));
    assert!(scoped.same_as(&scoped.clone()));
    assert!(!scoped.same_as(&Address::SocketAddress(SocketAddr::V6(link_local, 54, 0, 4))));
    assert!(matches!(
        resolved.resolve_address(&Address::SocketAddress(SocketAddr::V4([1; 4], 2))),
        Resolution::Known(SocketAddr::V4([1, 1, 1, 1], 2))
    ));
}

fn config(trojan: bool, vless: bool, websocket: bool, mux: bool) -> ServerConfig {
    ServerConfig {
        trojan: trojan.then_some(TrojanAcceptorConfig { password: "p".to_string() }),
        vless: vless.then_some(VlessAcceptorConfig::new(vec!["u".to_string()])),
        tls: TrojanTlsAcceptorConfig::new(
            "a".to_string(),
            "b".to_string(),
            "c".to_string(),
            "d".to_string(),
        ),
        fallback: None,
        websocket: websocket.then_some(WebSocketAcceptorConfig::new("/".to_string())),
        mux,
    }
}

#[test]
fn servers_start_one_protocol() {
    let plan = |trojan, vless, websocket, mux| match config(trojan, vless, websocket, mux).plan() {
        Ok(plan) => Ok(plan),
        Err(error) => Err(error.message()),
    };
    assert_eq!(
        plan(true, false, false, true),
        Ok(LaunchPlan::Trojan { websocket: false, mux: true })
    );
    assert_eq!(
        plan(true, false, true, false),
        Ok(LaunchPlan::Trojan { websocket: true, mux: false })
    );
    assert_eq!(
        plan(false, true, true, false),
        Ok(LaunchPlan::Vless { sing_box_mux: true })
    );
    assert_eq!(
        plan(false, true, true, true),
        Err("VLESS does not support trojan-go mux".to_string())
    );
    assert_eq!(
        plan(false, true, false, false),
        Err("VLESS server requires [websocket]".to_string())
    );
    assert_eq!(
        plan(true, true, true, false),
        Err("configure either [trojan] or [vless], not both".to_string())
    );
    assert_eq!(
        plan(false, false, true, false),
        Err("server requires [trojan] or [vless]".to_string())
    );
}

#[test]
fn modes_and_log_levels_have_names() {
    let mut global = GlobalConfig { mode: "server".to_string(), log_level: None };
    assert!(global.check_mode().is_ok());
    assert!(matches!(global.level(), Ok(LogLevel::Debug)));
    global.log_level = Some("warn".to_string());
    assert!(matches!(global.level(), Ok(LogLevel::Warn)));
    global.log_level = Some("WARN".to_string());
    assert!(matches!(global.level(), Err(LaunchError::InvalidLogLevel)));
    global.mode = "client".to_string();
    match global.check_mode() {
        Err(error) => assert_eq!(error.message(), "invalid mode: client"),
        Ok(()) => panic!("expected an error"),
    }
}
