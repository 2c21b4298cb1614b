use xdcc_mule::catalog::{add_job_key, build_job_key, CancelRequest, DownloadableFile, StatusQuery};
use xdcc_mule::jobs::{DownloadStatus, JobError, JobEvent, XdccDownloadManager};
use xdcc_mule::offer::{DccOffer, OfferError};
use xdcc_mule::session::{react, wait_failure, xdcc_request_of, InboundMessage, Reaction};
use xdcc_mule::transfer::{encode_ack, DownloadProgress, Transfer};

fn parsed(text: &str) -> Result<DccOffer, OfferError> {
    DccOffer::parse_from_ctcp(text, "bot")
}

#[test]
fn offer_parses_address_port_and_size() {
    let o = parsed("DCC SEND report.txt 3232235777 5000 1024").unwrap();
    assert_eq!(o.filename, "report.txt");
    assert_eq!(o.ip, "192.168.1.1");
    assert_eq!(o.port, 5000);
    assert_eq!(o.filesize, 1024);
    assert_eq!(o.from_nick, "bot");
}

#[test]
fn offer_without_size_has_size_zero() {
    let o = parsed("DCC SEND report.txt 3232235777 5000").unwrap();
    assert_eq!(o.filesize, 0);
    assert_eq!(o.ip, "192.168.1.1");
}

#[test]
fn offer_errors() {
    assert_eq!(parsed("DCC SEND report.txt 3232235777").err(), Some(OfferError::TooFewTokens));
    assert_eq!(parsed("DCC GET report.txt 1 2 3").err(), Some(OfferError::NotDccSend));
    assert_eq!(parsed("XDCC SEND report.txt 1 2 3").err(), Some(OfferError::NotDccSend));
    assert_eq!(parsed("DCC SEND f abc 5000").err(), Some(OfferError::BadAddress));
    assert_eq!(parsed("DCC SEND f 4294967296 5000").err(), Some(OfferError::BadAddress));
    assert_eq!(parsed("DCC SEND f 1 port").err(), Some(OfferError::BadPort));
    assert_eq!(parsed("DCC SEND f 1 65536").err(), Some(OfferError::BadPort));
    assert_eq!(parsed("DCC SEND f 1 2 big").err(), Some(OfferError::BadSize));
}

#[test]
fn offer_address_extremes_and_spacing() {
    let o = parsed("  DCC\tSEND  a.bin 0 +21 7 extra").unwrap();
    assert_eq!(o.ip, "0.0.0.0");
    assert_eq!(o.port, 21);
    assert_eq!(o.filesize, 7);
    let o = parsed("DCC SEND a 4294967295 65535 18446744073709551615").unwrap();
    assert_eq!(o.ip, "255.255.255.255");
    assert_eq!(o.filesize, u64::MAX);
}

fn start(m: &mut XdccDownloadManager, key: &str) -> Result<String, JobError> {
    m.start_download_with_id(key, "irc.example", "#chan", "bot", "12", "report.txt")
}

#[test]
fn second_start_conflicts_until_first_ends() {
    let mut m = XdccDownloadManager::new("downloads".to_string());
    assert_eq!(start(&mut m, "k").unwrap(), "k");
    assert_eq!(start(&mut m, "k").err(), Some(JobError::Conflict));
    assert!(m.advance("k", JobEvent::Connect));
    assert_eq!(start(&mut m, "k").err(), Some(JobError::Conflict));
    assert!(!m.advance("k", wait_failure(true)));
    assert_eq!(start(&mut m, "k").unwrap(), "k");
    let j = m.get_download("k").unwrap();
    assert_eq!(j.status, DownloadStatus::Pending);
    assert_eq!(j.error, None);
    assert_eq!(m.get_downloads().len(), 1);
}

#[test]
fn status_moves_only_forward() {
    let mut m = XdccDownloadManager::new("d".to_string());
    start(&mut m, "k").unwrap();
    // an offer before connecting is ignored
    assert!(m.advance("k", JobEvent::OfferReceived(10)));
    assert_eq!(m.get_download("k").unwrap().status, DownloadStatus::Pending);
    assert!(m.advance("k", JobEvent::Connect));
    assert!(m.advance("k", JobEvent::OfferReceived(10)));
    let j = m.get_download("k").unwrap();
    assert_eq!(j.status, DownloadStatus::Downloading);
    assert_eq!(j.total_size, Some(10));
    assert!(m.advance("k", JobEvent::Progress { bytes_received: 4, finished: false, error: None }));
    assert_eq!(m.get_download("k").unwrap().progress, 4);
    assert!(!m.advance("k", JobEvent::Progress { bytes_received: 10, finished: true, error: None }));
    assert_eq!(m.get_download("k").unwrap().status, DownloadStatus::Completed);
    // the catch-all does not overwrite an ended job
    assert!(!m.advance("k", JobEvent::Failed("late".to_string())));
    assert!(!m.advance("k", JobEvent::Saved("d/report.txt".to_string())));
    let j = m.get_download("k").unwrap();
    assert_eq!(j.status, DownloadStatus::Completed);
    assert_eq!(j.error, None);
    assert_eq!(j.download_path, Some("d/report.txt".to_string()));
    assert!(!m.advance("k", JobEvent::Connect));
    assert_eq!(m.get_download("k").unwrap().status, DownloadStatus::Completed);
}

#[test]
fn transfer_error_fails_job() {
    let mut m = XdccDownloadManager::new("d".to_string());
    start(&mut m, "k").unwrap();
    m.advance("k", JobEvent::Connect);
    m.advance("k", JobEvent::OfferReceived(0));
    let e = Some("reset".to_string());
    assert!(!m.advance("k", JobEvent::Progress { bytes_received: 3, finished: true, error: e }));
    let j = m.get_download("k").unwrap();
    assert_eq!(j.status, DownloadStatus::Failed);
    assert_eq!(j.error, Some("reset".to_string()));
}

#[test]
fn cancelled_job_stops_workflow() {
    let mut m = XdccDownloadManager::new("d".to_string());
    start(&mut m, "k").unwrap();
    assert!(m.cancel_download("k").is_ok());
    assert!(!m.advance("k", JobEvent::Connect));
    assert_eq!(m.get_download("k").unwrap().status, DownloadStatus::Cancelled);
    assert_eq!(start(&mut m, "k").unwrap(), "k");
}

#[test]
fn offer_timeout_fails_job() {
    let mut m = XdccDownloadManager::new("d".to_string());
    start(&mut m, "k").unwrap();
    m.advance("k", JobEvent::Connect);
    assert!(!m.advance("k", wait_failure(true)));
    let j = m.get_download("k").unwrap();
    assert_eq!(j.status, DownloadStatus::Failed);
    assert!(j.error.unwrap().contains("Timeout"));
    match wait_failure(false) {
        JobEvent::Failed(msg) => assert_eq!(msg, "DCC channel closed"),
        _ => panic!("expected a failure"),
    }
}

#[test]
fn cancel_unknown_key_is_not_found() {
    let mut m = XdccDownloadManager::new("d".to_string());
    assert_eq!(m.cancel_download("nope"), Err(JobError::NotFound));
    assert!(m.get_download("nope").is_none());
    assert_eq!(m.get_downloads().len(), 0);
}

fn finished_count(events: &[DownloadProgress]) -> usize {
    events.iter().filter(|e| e.finished).count()
}

#[test]
fn exact_transfer_finishes_once() {
    let (mut t, first) = Transfer::start(20000);
    let mut events = vec![first];
    for n in [8192usize, 8192, 3616] {
        assert!(!t.done);
        events.extend(t.on_data(n).events);
    }
    assert!(t.done);
    assert_eq!(finished_count(&events), 1);
    let last = events.last().unwrap();
    assert!(last.finished);
    assert_eq!(last.bytes_received, 20000);
    assert_eq!(last.error, None);
}

#[test]
fn unknown_size_transfer_finishes_on_close() {
    let (mut t, first) = Transfer::start(0);
    let mut events = vec![first];
    events.extend(t.on_data(100).events);
    assert!(!t.done);
    events.push(t.on_closed());
    assert_eq!(finished_count(&events), 1);
    assert_eq!(events.last().unwrap().bytes_received, 100);
}

#[test]
fn read_error_ends_transfer_with_error() {
    let (mut t, _) = Transfer::start(50);
    t.on_data(10);
    let p = t.on_error("broken pipe".to_string());
    assert!(p.finished);
    assert_eq!(p.bytes_received, 10);
    assert_eq!(p.error, Some("broken pipe".to_string()));
}

#[test]
fn acks_carry_cumulative_count_big_endian() {
    let (mut t, _) = Transfer::start(0);
    assert_eq!(t.on_data(1024).ack, vec![0, 0, 0, 0, 0, 0, 4, 0]);
    assert_eq!(t.on_data(8192).ack, vec![0, 0, 0, 0, 0, 0, 0x24, 0]);
    assert_eq!(encode_ack(0x0102030405060708), vec![1, 2, 3, 4, 5, 6, 7, 8]);
    assert_eq!(encode_ack(u64::MAX), 0xffff_ffff_ffff_ffffu64.to_be_bytes().to_vec());
}

#[test]
fn session_answers_ping_and_routes_offers() {
    match react(InboundMessage::Ping("tok".to_string())) {
        Reaction::Pong(t) => assert_eq!(t, "tok"),
        _ => panic!("expected pong"),
    }
    let content = "\u{1}DCC SEND report.txt 3232235777 5000 1024\u{1}".to_string();
    match react(InboundMessage::Privmsg { sender: Some("Bot".to_string()), content }) {
        Reaction::Offer { key, offer } => {
            assert_eq!(key, "Bot-report.txt");
            assert_eq!(offer.ip, "192.168.1.1");
            assert_eq!(offer.filesize, 1024);
        }
        _ => panic!("expected an offer"),
    }
    let plain = "DCC SEND report.txt 3232235777 5000 1024".to_string();
    let r = react(InboundMessage::Privmsg { sender: Some("Bot".to_string()), content: plain });
    assert!(matches!(r, Reaction::Ignore));
    let other = "\u{1}VERSION\u{1}".to_string();
    let r = react(InboundMessage::Privmsg { sender: Some("Bot".to_string()), content: other });
    assert!(matches!(r, Reaction::Ignore));
    let bad = "\u{1}DCC SEND f x 1\u{1}".to_string();
    let r = react(InboundMessage::Privmsg { sender: Some("Bot".to_string()), content: bad });
    assert!(matches!(r, Reaction::Ignore));
    let ctcp = "\u{1}DCC SEND f 1 2\u{1}".to_string();
    let r = react(InboundMessage::Privmsg { sender: None, content: ctcp });
    assert!(matches!(r, Reaction::Ignore));
}

#[test]
fn request_command_names_pack() {
    assert_eq!(xdcc_request_of("12"), "xdcc send #12");
}

#[test]
fn job_keys() {
    let f = DownloadableFile {
        channel_name: "#chan".to_string(),
        network: "irc.example".to_string(),
        file_number: "12".to_string(),
        bot_name: "bot".to_string(),
        file_size: "1M".to_string(),
        file_name: "a.txt".to_string(),
    };
    assert_eq!(build_job_key(&f), "irc.example-#chan-bot-12-a.txt-1M");
    let w = add_job_key(f);
    assert_eq!(w.id, "irc.example-#chan-bot-12-a.txt-1M");
    assert_eq!(w.file.file_name, "a.txt");
    let c = CancelRequest {
        filename: "a.txt".to_string(),
        server: "s".to_string(),
        channel: "c".to_string(),
        bot: "b".to_string(),
        pack: "1".to_string(),
        file_size: None,
    };
    assert_eq!(c.job_key(), "s-c-b-1-a.txt-");
}

#[test]
fn status_filter() {
    let q = StatusQuery { status: Some("failed".to_string()) };
    assert!(q.admits(DownloadStatus::Failed));
    assert!(!q.admits(DownloadStatus::Completed));
    assert!(StatusQuery { status: None }.admits(DownloadStatus::Pending));
    assert!(!StatusQuery { status: Some("bogus".to_string()) }.admits(DownloadStatus::Pending));
}
