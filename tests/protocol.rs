use gdb_rsp::command::{packet_to_command, parse_command, BreakPointType, GdbCommand};
use gdb_rsp::error::GdbServerError;
use gdb_rsp::hex::{checksum, checksum_hex, decode_hex_pairs, parse_hex_i32, parse_hex_u32};
use gdb_rsp::reply::{encode_packet, memory_reply, transfer_window};
use gdb_rsp::server::{Action, GdbServer, Received};

fn feed(server: &mut GdbServer, bytes: &[u8]) -> Vec<Received> {
    bytes.iter().map(|b| server.receive_byte(*b)).collect()
}

fn parse(s: &str) -> Result<GdbCommand, GdbServerError> {
    parse_command(s.as_bytes())
}

#[test]
fn checksum_is_sum_mod_256() {
    assert_eq!(checksum(b"OK"), 0x9a);
    assert_eq!(checksum(b""), 0);
    assert_eq!(checksum(&[0xff, 0x02]), 0x01);
    assert_eq!(checksum_hex(b"OK"), b"9a".to_vec());
    assert_eq!(checksum_hex(b""), b"00".to_vec());
    assert_eq!(checksum_hex(&[0x0a]), b"0a".to_vec());
}

#[test]
fn encode_frames_payload() {
    assert_eq!(encode_packet(b"OK"), b"$OK#9a".to_vec());
    assert_eq!(encode_packet(b""), b"$#00".to_vec());
}

#[test]
fn round_trip_with_ack() {
    let mut s = GdbServer::new();
    let out = feed(&mut s, &encode_packet(b"qSupported:xmlRegisters=i386"));
    let (last, rest) = out.split_last().unwrap();
    assert!(rest.iter().all(|r| *r == Received::Pending));
    assert_eq!(*last, Received::Packet(b"qSupported:xmlRegisters=i386".to_vec(), Some(b'+')));
}

#[test]
fn round_trip_without_ack_after_no_ack_mode() {
    let mut s = GdbServer::new();
    let out = feed(&mut s, &encode_packet(b"QStartNoAckMode"));
    assert_eq!(out.last().unwrap(), &Received::Packet(b"QStartNoAckMode".to_vec(), Some(b'+')));
    let cmd = parse("QStartNoAckMode").unwrap();
    assert_eq!(s.process(cmd), Action::Reply(b"OK".to_vec()));
    for payload in [&b"g"[..], &b"m1000,4"[..], &b""[..]] {
        let out = feed(&mut s, &encode_packet(payload));
        assert_eq!(out.last().unwrap(), &Received::Packet(payload.to_vec(), None));
    }
}

#[test]
fn checksum_mismatch_naks_and_forwards_payload() {
    let mut s = GdbServer::new();
    let out = feed(&mut s, b"$OK#00");
    assert_eq!(out.last().unwrap(), &Received::Packet(b"OK".to_vec(), Some(b'-')));
    let out = feed(&mut s, b"$OK#9A");
    assert_eq!(out.last().unwrap(), &Received::Packet(b"OK".to_vec(), Some(b'-')));
}

#[test]
fn stray_bytes_between_packets_are_discarded() {
    let mut s = GdbServer::new();
    let out = feed(&mut s, b"+-x\n$g#67");
    assert_eq!(out[..8].iter().filter(|r| **r != Received::Pending).count(), 0);
    assert_eq!(out[8], Received::Packet(b"g".to_vec(), Some(b'+')));
}

#[test]
fn interrupt_between_packets() {
    let mut s = GdbServer::new();
    assert_eq!(s.receive_byte(0x03), Received::Interrupt);
    let out = feed(&mut s, b"$c#63");
    assert_eq!(out.last().unwrap(), &Received::Packet(b"c".to_vec(), Some(b'+')));
    assert_eq!(s.receive_byte(0x03), Received::Interrupt);
}

#[test]
fn interrupt_inside_packet_is_payload() {
    let mut s = GdbServer::new();
    let out = feed(&mut s, &[b'$', b'a', 0x03, b'#', b'6', b'4']);
    assert_eq!(out[2], Received::Pending);
    assert_eq!(out[5], Received::Packet(vec![b'a', 0x03], Some(b'+')));
}

#[test]
fn parses_fixed_commands() {
    assert_eq!(parse("qSupported"), Ok(GdbCommand::SupportedQueries(b"qSupported".to_vec())));
    assert_eq!(parse("QStartNoAckMode"), Ok(GdbCommand::StartNoAckMode));
    assert_eq!(parse("qAttached"), Ok(GdbCommand::CheckIsAttached));
    assert_eq!(parse("qOffsets"), Ok(GdbCommand::GetOffsets));
    assert_eq!(parse("g"), Ok(GdbCommand::GetRegisters));
    assert_eq!(parse("c"), Ok(GdbCommand::Continue));
    assert_eq!(parse("s"), Ok(GdbCommand::Step));
    assert_eq!(parse("qC"), Ok(GdbCommand::GetCurrentThreadId));
    assert_eq!(parse("?"), Ok(GdbCommand::LastSignalPacket));
    assert_eq!(parse("qfThreadInfo"), Ok(GdbCommand::GetThreadInfo));
    assert_eq!(parse("vCont?"), Ok(GdbCommand::VContQuery));
    assert_eq!(parse("vCont;c"), Ok(GdbCommand::VContContinue));
    assert_eq!(parse("qSymbol::"), Ok(GdbCommand::SymbolsReady));
}

#[test]
fn parses_commands_with_fields() {
    assert_eq!(
        parse("qXfer:features:read:target.xml:0,1000"),
        Ok(GdbCommand::ReadFeature(b"target.xml".to_vec(), 0, 0x1000))
    );
    assert_eq!(parse("qXfer:threads:read::10,ff"), Ok(GdbCommand::ReadThreads(0x10, 0xff)));
    assert_eq!(parse("m80000000,40"), Ok(GdbCommand::ReadMemory(0x8000_0000, 0x40)));
    assert_eq!(parse("Hg1f"), Ok(GdbCommand::SetCurrentThread(0x1f)));
    assert_eq!(parse("Hc-1"), Ok(GdbCommand::ContinueThread(-1)));
    assert_eq!(parse("Hc0"), Ok(GdbCommand::ContinueThread(0)));
    assert_eq!(parse("vCont;C04:0;c"), Ok(GdbCommand::VContContinueFromSignal(b"04:0;c".to_vec())));
    assert_eq!(parse("vCont;s:0;c"), Ok(GdbCommand::VContStepFromSignal(b":0;c".to_vec())));
}

#[test]
fn feature_name_is_text_before_last_colon() {
    assert_eq!(
        parse("qXfer:features:read:a:b.xml:4,8"),
        Ok(GdbCommand::ReadFeature(b"a:b.xml".to_vec(), 4, 8))
    );
}

#[test]
fn monitor_command_hex_pairs() {
    assert_eq!(parse("qRcmd,68656c6c6f"), Ok(GdbCommand::MonitorCommand(b"hello".to_vec())));
    assert_eq!(parse("qRcmd,4A4b7"), Ok(GdbCommand::MonitorCommand(b"JK".to_vec())));
    assert_eq!(decode_hex_pairs(b"zz41"), vec![0x00, 0x41]);
}

#[test]
fn breakpoint_commands() {
    assert_eq!(parse("Z0,1000,4"), Ok(GdbCommand::AddBreakpoint(BreakPointType::BreakSoft, 0x1000, 4)));
    assert_eq!(parse("z2,2000,1"), Ok(GdbCommand::RemoveBreakpoint(BreakPointType::WatchWrite, 0x2000, 1)));
    assert_eq!(parse("Z1,0,2"), Ok(GdbCommand::AddBreakpoint(BreakPointType::BreakHard, 0, 2)));
    assert_eq!(parse("z3,10,2"), Ok(GdbCommand::RemoveBreakpoint(BreakPointType::WatchRead, 0x10, 2)));
    assert_eq!(parse("Z4,10,2"), Ok(GdbCommand::AddBreakpoint(BreakPointType::WatchAccess, 0x10, 2)));
}

#[test]
fn breakpoint_type_from_digit() {
    assert_eq!(BreakPointType::from_str(b"0"), Ok(BreakPointType::BreakSoft));
    assert_eq!(BreakPointType::from_str(b"4"), Ok(BreakPointType::WatchAccess));
    assert_eq!(BreakPointType::from_str(b"5"), Err(GdbServerError::ParseIntError));
    assert_eq!(BreakPointType::from_str(b"00"), Err(GdbServerError::ParseIntError));
    assert_eq!(BreakPointType::from_str(b""), Err(GdbServerError::ParseIntError));
}

#[test]
fn malformed_fields_fail_the_parse() {
    let e = Err(GdbServerError::ParseIntError);
    assert_eq!(parse("Z9,1000,4"), e);
    assert_eq!(parse("Z0,10g0,4"), e);
    assert_eq!(parse("Z0,1000"), e);
    assert_eq!(parse("m1000"), e);
    assert_eq!(parse("m1000,"), e);
    assert_eq!(parse("m100000000,4"), e);
    assert_eq!(parse("Hgxyz"), e);
    assert_eq!(parse("Hc80000000"), e);
    assert_eq!(parse("qXfer:threads:read::10"), e);
    assert_eq!(parse("qXfer:features:read:target.xml"), e);
}

#[test]
fn register_read_keeps_prefix_quirk() {
    assert_eq!(parse("p10"), Err(GdbServerError::ParseIntError));
}

#[test]
fn unmatched_payload_is_unknown() {
    assert_eq!(parse("vMustReplyEmpty"), Ok(GdbCommand::Unknown(b"vMustReplyEmpty".to_vec())));
    assert_eq!(parse(""), Ok(GdbCommand::Unknown(Vec::new())));
    assert_eq!(parse("gg"), Ok(GdbCommand::Unknown(b"gg".to_vec())));
}

#[test]
fn invalid_utf8_is_replaced() {
    assert_eq!(
        packet_to_command(&[b'x', 0xff]),
        Ok(GdbCommand::Unknown("x\u{fffd}".as_bytes().to_vec()))
    );
    assert_eq!(packet_to_command(b"g"), Ok(GdbCommand::GetRegisters));
}

#[test]
fn hex_numbers() {
    assert_eq!(parse_hex_u32(b"ffffffff"), Some(0xffff_ffff));
    assert_eq!(parse_hex_u32(b"+1A"), Some(0x1a));
    assert_eq!(parse_hex_u32(b"100000000"), None);
    assert_eq!(parse_hex_u32(b""), None);
    assert_eq!(parse_hex_u32(b"+"), None);
    assert_eq!(parse_hex_i32(b"-80000000"), Some(i32::MIN));
    assert_eq!(parse_hex_i32(b"7fffffff"), Some(i32::MAX));
    assert_eq!(parse_hex_i32(b"-"), None);
}

#[test]
fn windowed_transfer() {
    let data = b"0123456789";
    assert_eq!(transfer_window(data, 0, 4), b"m0123".to_vec());
    assert_eq!(transfer_window(data, 8, 4), b"l89".to_vec());
    assert_eq!(transfer_window(data, 20, 4), b"l".to_vec());
    assert_eq!(transfer_window(data, 10, 4), b"l".to_vec());
    assert_eq!(transfer_window(data, 6, 4), b"m6789".to_vec());
}

#[test]
fn memory_read_plan_and_reply() {
    let mut s = GdbServer::new();
    assert_eq!(s.process(GdbCommand::ReadMemory(0x1000, 8)), Action::ReadMemory(vec![0x1000, 0x1004]));
    assert_eq!(s.process(GdbCommand::ReadMemory(0x1000, 5)), Action::ReadMemory(vec![0x1000, 0x1004]));
    assert_eq!(s.process(GdbCommand::ReadMemory(0x1000, 0)), Action::ReadMemory(vec![]));
    assert_eq!(s.process(GdbCommand::ReadMemory(0xffff_fffc, 8)), Action::ReadMemory(vec![0xffff_fffc, 0]));
    assert_eq!(memory_reply(&[0x1122_3344, 0xdead_beef]), b"11223344deadbeef".to_vec());
    assert_eq!(memory_reply(&[0x0000_0001]), b"00000001".to_vec());
}

#[test]
fn fixed_replies() {
    let mut s = GdbServer::new();
    let reply = |t: &str| Action::Reply(t.as_bytes().to_vec());
    assert_eq!(
        s.process(GdbCommand::SupportedQueries(b"qSupported".to_vec())),
        reply("PacketSize=3fff;qXfer:memory-map:read+;qXfer:features:read+;qXfer:threads:read+;QStartNoAckMode+;vContSupported+")
    );
    assert_eq!(s.process(GdbCommand::SetCurrentThread(0)), reply("OK"));
    assert_eq!(s.process(GdbCommand::ContinueThread(-1)), reply("OK"));
    assert_eq!(s.process(GdbCommand::AddBreakpoint(BreakPointType::BreakSoft, 0, 4)), reply("OK"));
    assert_eq!(s.process(GdbCommand::RemoveBreakpoint(BreakPointType::BreakSoft, 0, 4)), reply("OK"));
    assert_eq!(s.process(GdbCommand::SymbolsReady), reply("OK"));
    assert_eq!(s.process(GdbCommand::MonitorCommand(b"reset".to_vec())), reply("OK"));
    assert_eq!(s.process(GdbCommand::GetThreadInfo), reply("l"));
    assert_eq!(s.process(GdbCommand::GetCurrentThreadId), reply("QC0"));
    assert_eq!(s.process(GdbCommand::CheckIsAttached), reply("1"));
    assert_eq!(s.process(GdbCommand::GetRegister(3)), reply("12345678"));
    assert_eq!(s.process(GdbCommand::VContQuery), reply("vCont;c;C;s;S"));
    assert_eq!(s.process(GdbCommand::GetOffsets), reply("Text=0;Data=0;Bss=0"));
    assert_eq!(s.process(GdbCommand::Unknown(b"vKill".to_vec())), reply(""));
    assert_eq!(s.process(GdbCommand::LastSignalPacket), reply("S00"));
}

#[test]
fn register_dump_has_33_slots() {
    let mut s = GdbServer::new();
    let mut expected = String::new();
    for i in 0..33u32 {
        expected.push_str(&format!("{:08x}", i));
    }
    assert_eq!(s.process(GdbCommand::GetRegisters), Action::Reply(expected.into_bytes()));
}

#[test]
fn execution_control_actions() {
    let mut s = GdbServer::new();
    assert_eq!(s.process(GdbCommand::Continue), Action::Resume);
    assert_eq!(s.process(GdbCommand::VContContinue), Action::Resume);
    assert_eq!(s.process(GdbCommand::VContContinueFromSignal(b"05".to_vec())), Action::Resume);
    assert_eq!(s.process(GdbCommand::Step), Action::Step);
    assert_eq!(s.process(GdbCommand::VContStepFromSignal(Vec::new())), Action::Step);
    assert_eq!(s.signal_reply(), b"S00".to_vec());
    assert_eq!(s.process(GdbCommand::Interrupt), Action::Halt);
    assert_eq!(s.signal_reply(), b"S02".to_vec());
    assert_eq!(s.process(GdbCommand::LastSignalPacket), Action::Reply(b"S02".to_vec()));
    assert_eq!(
        s.process(GdbCommand::ReadFeature(b"target.xml".to_vec(), 0, 0x100)),
        Action::ReadFeature(b"target.xml".to_vec(), 0, 0x100)
    );
    assert_eq!(s.process(GdbCommand::ReadThreads(4, 8)), Action::ReadThreads(4, 8));
}
