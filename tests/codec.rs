use nyirc::parse::{dump, parse, split_args};
use nyirc::protocol::{Command, IRCString};
use nyirc::sock::MessageIn;

fn s(b: &[u8]) -> IRCString {
    IRCString::new(b.to_vec())
}

fn line(b: &[u8]) -> MessageIn {
    MessageIn { time: 0, data: s(b) }
}

fn bytes(args: &[IRCString]) -> Vec<Vec<u8>> {
    args.iter().map(|a| a.bytes.clone()).collect()
}

#[test]
fn parse_plain_command() {
    let c = parse(&line(b"NICK bob")).unwrap();
    assert!(c.pfx.is_none());
    assert_eq!(c.cmd.bytes, b"NICK".to_vec());
    assert_eq!(bytes(&c.args), vec![b"bob".to_vec()]);
}

#[test]
fn parse_prefix_and_trailing_argument() {
    let c = parse(&line(b":alice PRIVMSG carol :hi there")).unwrap();
    assert_eq!(c.pfx.unwrap().bytes, b"alice".to_vec());
    assert_eq!(c.cmd.bytes, b"PRIVMSG".to_vec());
    assert_eq!(bytes(&c.args), vec![b"carol".to_vec(), b"hi there".to_vec()]);
}

#[test]
fn parse_uppercases_command_token_only() {
    let c = parse(&line(b"privmsg bob :Hello")).unwrap();
    assert_eq!(c.cmd.bytes, b"PRIVMSG".to_vec());
    assert_eq!(bytes(&c.args), vec![b"bob".to_vec(), b"Hello".to_vec()]);
}

#[test]
fn parse_without_token_gives_none() {
    assert!(parse(&line(b"")).is_none());
    assert!(parse(&line(b":onlyprefix")).is_none());
    assert!(parse(&line(b":onlyprefix ")).is_none());
}

#[test]
fn parse_user_registration() {
    let c = parse(&line(b"USER b 0 0 :Bob B")).unwrap();
    assert_eq!(c.cmd.bytes, b"USER".to_vec());
    assert_eq!(
        bytes(&c.args),
        vec![b"b".to_vec(), b"0".to_vec(), b"0".to_vec(), b"Bob B".to_vec()]
    );
}

#[test]
fn split_keeps_empty_words_between_double_spaces() {
    let a = split_args(b"a  b");
    assert_eq!(bytes(&a), vec![b"a".to_vec(), b"".to_vec(), b"b".to_vec()]);
}

#[test]
fn split_trailing_colon_takes_rest() {
    let a = split_args(b"x :y z :w");
    assert_eq!(bytes(&a), vec![b"x".to_vec(), b"y z :w".to_vec()]);
    assert!(split_args(b"").is_empty());
    assert_eq!(bytes(&split_args(b":")), vec![b"".to_vec()]);
}

#[test]
fn dump_renders_line_and_deadline() {
    let c = Command { pfx: Some(s(b"alice")), cmd: s(b"PRIVMSG"), args: vec![s(b"carol"), s(b"hi")] };
    let m = dump(c, 1000, 500);
    assert_eq!(m.data.bytes, b":alice PRIVMSG carol hi\r\n".to_vec());
    assert_eq!(m.deadline, 1500);
    let c2 = Command { pfx: None, cmd: s(b"PING"), args: vec![] };
    assert_eq!(dump(c2, 0, 0).data.bytes, b"PING\r\n".to_vec());
}

#[test]
fn round_trip_reproduces_command() {
    let frame = b":srv notice bob  x";
    let c = parse(&line(frame)).unwrap();
    let out = dump(c.clone(), 0, 0);
    let mut body = out.data.bytes.clone();
    assert_eq!(body.split_off(body.len() - 2), b"\r\n".to_vec());
    let again = parse(&line(&body)).unwrap();
    assert_eq!(again.pfx.unwrap().bytes, b"srv".to_vec());
    assert_eq!(again.cmd.bytes, b"NOTICE".to_vec());
    assert_eq!(bytes(&again.args), bytes(&c.args));
    assert_eq!(bytes(&again.args), vec![b"bob".to_vec(), b"".to_vec(), b"x".to_vec()]);
}

#[test]
fn upper_inplace_folds_ascii_letters_only() {
    let mut x = IRCString::new(vec![b'a', b'Z', b'{', 0xe9, b'q']);
    x.upper_inplace();
    assert_eq!(x.bytes, vec![b'A', b'Z', b'{', 0xe9, b'Q']);
}
