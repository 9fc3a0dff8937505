use b1t_indexer::docs::{
    holders_docs, holders_stats_docs, status_docs, token_docs, token_events_docs, token_supplies_docs,
    token_transfer_proof_docs, tokens_docs, TransformOperation,
};
use b1t_indexer::queries::{
    event_search_range, holder_page, page_window, select_tokens, SearchError, TokenFilterBy, TokenRow, TokenSortBy,
};
use b1t_indexer::searcher::{InscriptionSearcher, LeakError};
use b1t_indexer::tokens::{
    Brc4ActionErr, Brc4Error, Brc4ParseErr, HexError, InscriptionId, IntErrorKind, OriginalTokenTick,
    OriginalTokenTickRest, OutPoint, ParseError, TickError, TokenBalanceRest, TokenTransfer, Txid,
};
use std::str::FromStr;

const TXID_TEXT: &str = "0000000000000000000000000000000000000000000000000000000000000a01";

#[test]
fn tick_is_padded_and_shown_up_to_the_first_zero() {
    let t = OriginalTokenTick::from_str("abcd").unwrap();
    assert_eq!(t.0, [b'a', b'b', b'c', b'd', 0, 0]);
    assert_eq!(t.to_text(), "abcd");
    assert_eq!(OriginalTokenTick::from_str("abcdefg").err(), Some(TickError::TooLong));
    assert_eq!(OriginalTokenTick::try_from(vec![1, 2, 3, 4, 5, 6, 7]).err(), Some(TickError::TooLong));
    assert_eq!(OriginalTokenTick::try_from(vec![b'x']).unwrap().0, [b'x', 0, 0, 0, 0, 0]);
    assert_eq!(OriginalTokenTick::from_bytes([b'q', 0, b'r', 0, 0, 0]).to_text(), "q");
}

#[test]
fn rest_tick_text_roundtrip() {
    for text in ["ordi", "\u{e9}t\u{e9}", "sixsix", ""] {
        let t = OriginalTokenTickRest::from_text(text).unwrap();
        assert_eq!(t.to_text(), text);
        assert_eq!(OriginalTokenTick::from_rest(t).0, t.0);
        assert_eq!(OriginalTokenTickRest::from_tick(OriginalTokenTick::from_rest(t)).as_ref(), &t.0[..]);
    }
    assert_eq!(OriginalTokenTickRest::from_text("toolong").err(), Some(TickError::TooLong));
}

#[test]
fn tick_with_invalid_utf8_is_shown_lossily() {
    let t = OriginalTokenTick::from_bytes([b'a', 0xff, 0, 0, 0, 0]);
    assert_eq!(t.to_text(), "a\u{fffd}");
}

#[test]
fn txid_text_is_reversed_hex() {
    let t = Txid::from_str(TXID_TEXT).unwrap();
    assert_eq!(t.0[0], 0x01);
    assert_eq!(t.0[1], 0x0a);
    assert_eq!(t.0[31], 0x00);
    assert_eq!(t.to_text(), TXID_TEXT);
    assert_eq!(t.0, bellscoin::Txid::from_str(TXID_TEXT).map(|x| bellscoin::hashes::Hash::to_byte_array(x)).unwrap());
}

#[test]
fn txid_errors_match_the_parser() {
    for bad in ["zz", "abc", &"g".repeat(64)] {
        let e = Txid::from_str(bad).err().unwrap();
        let theirs = bellscoin::Txid::from_str(bad).err().unwrap().to_string();
        assert_eq!(e.message(), theirs);
    }
    assert!(matches!(Txid::from_str("abc"), Err(HexError::OddLengthString(3))));
}

#[test]
fn inscription_id_text_roundtrip() {
    let text = format!("{}i7", TXID_TEXT);
    let id = InscriptionId::from_str(&text).unwrap();
    assert_eq!(id.index, 7);
    assert_eq!(id.to_text(), text);
    let out = id.to_outpoint();
    assert_eq!((out.txid, out.vout), (id.txid, 7));
    let back = InscriptionId::from_outpoint(OutPoint { txid: id.txid, vout: 9 });
    assert_eq!(back.index, 9);
    assert_eq!(back.txid, id.txid);
}

#[test]
fn inscription_id_errors() {
    assert_eq!(InscriptionId::from_str("abc").err(), Some(ParseError::Length(3)));
    let sep = format!("{}x0", TXID_TEXT);
    assert_eq!(InscriptionId::from_str(&sep).err(), Some(ParseError::Separator('x')));
    let ch = format!("{}i\u{e9}", TXID_TEXT);
    assert_eq!(InscriptionId::from_str(&ch).err(), Some(ParseError::Character('\u{e9}')));
    let idx = format!("{}i", TXID_TEXT);
    assert_eq!(InscriptionId::from_str(&idx).err(), Some(ParseError::Length(65)));
    let bad_idx = format!("{}i1x", TXID_TEXT);
    assert_eq!(InscriptionId::from_str(&bad_idx).err(), Some(ParseError::Index(IntErrorKind::InvalidDigit)));
    let big = format!("{}i4294967296", TXID_TEXT);
    assert_eq!(InscriptionId::from_str(&big).err(), Some(ParseError::Index(IntErrorKind::PosOverflow)));
    let plus = format!("{}i+5", TXID_TEXT);
    assert_eq!(InscriptionId::from_str(&plus).map(|x| x.index), Ok(5));
    let bad_tx = format!("{}i0", "g".repeat(64));
    assert!(matches!(InscriptionId::from_str(&bad_tx), Err(ParseError::Txid(_))));
}

#[test]
fn error_texts() {
    assert_eq!(ParseError::Length(3).message(), "invalid length: 3");
    assert_eq!(ParseError::Separator('x').message(), "invalid separator: `x`");
    assert_eq!(ParseError::Character('\u{e9}').message(), "invalid character: '\u{e9}'");
    let std_digit = "1x".parse::<u32>().unwrap_err().to_string();
    assert_eq!(ParseError::Index(IntErrorKind::InvalidDigit).message(), format!("invalid index: {}", std_digit));
    assert_eq!(IntErrorKind::Empty.message(), "".parse::<u32>().unwrap_err().to_string());
    assert_eq!(IntErrorKind::PosOverflow.message(), "4294967296".parse::<u32>().unwrap_err().to_string());
    assert_eq!(HexError::InvalidLength(64, 2).message(), "bad hex string length 2 (expected 64)");
    assert_eq!(ParseError::Txid(HexError::InvalidChar(103)).message(), "invalid txid: invalid hex character 103");
}

#[test]
fn token_errors_compare() {
    let a = Brc4Error::Action(Brc4ActionErr::InsufficientBalance);
    assert_eq!(a.clone(), a);
    assert_ne!(Brc4Error::Parse(Brc4ParseErr::DecimalEmpty), Brc4Error::Parse(Brc4ParseErr::Unknown(String::from("x"))));
}

#[test]
fn token_balance_holds_its_transfers() {
    let txid = Txid::from_str(TXID_TEXT).unwrap();
    let transfer = TokenTransfer { outpoint: OutPoint { txid, vout: 1 }, amount: 500 };
    let balance = TokenBalanceRest {
        tick: OriginalTokenTickRest::from_text("ordi").unwrap(),
        balance: 1000,
        transferable_balance: 500,
        transfers: vec![transfer],
        transfers_count: 1,
    };
    assert_eq!(balance.clone().transfers[0].amount, 500);
    assert_eq!(balance.transfers_count, 1);
}

#[test]
fn offsets_take_the_fee_from_the_last_inputs() {
    assert_eq!(InscriptionSearcher::calc_offsets(&vec![Some(10), Some(20)], &vec![25]), Some(vec![0, 10]));
    assert_eq!(InscriptionSearcher::calc_offsets(&vec![Some(10), Some(3)], &vec![8]), Some(vec![0]));
    assert_eq!(InscriptionSearcher::calc_offsets(&vec![Some(10), None], &vec![8]), None);
    assert_eq!(InscriptionSearcher::calc_offsets(&vec![Some(4), Some(6)], &vec![4, 6]), Some(vec![0, 4]));
    assert_eq!(InscriptionSearcher::calc_offsets(&vec![], &vec![]), Some(vec![]));
}

#[test]
fn offsets_land_in_outputs() {
    assert_eq!(InscriptionSearcher::get_output_index_by_input(Some(12), &vec![10, 5]), Ok((1, 2)));
    assert_eq!(InscriptionSearcher::get_output_index_by_input(Some(0), &vec![10, 5]), Ok((0, 0)));
    assert_eq!(
        InscriptionSearcher::get_output_index_by_input(Some(15), &vec![10, 5]),
        Err(LeakError::OffsetTooLarge { offset: 15, total_output: 15 })
    );
    assert_eq!(InscriptionSearcher::get_output_index_by_input(None, &vec![10]), Err(LeakError::NoOffset));
    assert_eq!(InscriptionSearcher::get_output_index_by_input(Some(3), &vec![0, 0, 4]), Ok((2, 3)));
}

#[test]
fn pages_of_a_list() {
    assert_eq!(page_window(25, 3, 10), (3, 20, 25));
    assert_eq!(page_window(25, 1, 10), (3, 0, 10));
    assert_eq!(page_window(0, 1, 10), (0, 0, 0));
    assert_eq!(page_window(10, 5, 3), (4, 10, 10));
    assert_eq!(page_window(30, 3, 10), (3, 20, 30));
}

#[test]
fn event_search_ranges() {
    let (from, to) = event_search_range(TXID_TEXT).unwrap();
    assert_eq!((from.vout, to.vout), (0, u32::MAX));
    assert_eq!(from.txid, Txid::from_str(TXID_TEXT).unwrap());
    let one = format!("{}:7", TXID_TEXT);
    let (from, to) = event_search_range(&one).unwrap();
    assert_eq!((from.vout, to.vout), (7, 7));
    let sep_only = format!("{}:", TXID_TEXT);
    assert_eq!(event_search_range(&sep_only).map(|x| x.1.vout), Ok(u32::MAX));
    let bad = format!("{}:x", TXID_TEXT);
    let e = event_search_range(&bad).err().unwrap();
    assert_eq!(e, SearchError::Vout(IntErrorKind::InvalidDigit));
    assert_eq!(e.message(), "Failed to parse outpoint from search prompt");
    let e = event_search_range("zz").err().unwrap();
    assert!(matches!(e, SearchError::Txid(_)));
    assert_eq!(e.message(), bellscoin::Txid::from_str("zz").err().unwrap().to_string());
}

#[test]
fn docs_describe_and_tag() {
    let cases: [(fn(TransformOperation) -> TransformOperation, &str, &str); 8] = [
        (holders_docs, "A list of holders for specific token", "token"),
        (holders_stats_docs, "A stats of holders for specific token", "token"),
        (status_docs, "Status of the indexer", "status"),
        (tokens_docs, "A complete list of tokens with sorts, filters and search", "token"),
        (token_docs, "Detailed information about a token", "token"),
        (token_supplies_docs, "Batch operation to get token supply for each token from the provided list", "token"),
        (token_transfer_proof_docs, "Verifies a transfer by address and outpoint", "token"),
        (token_events_docs, "A complete list of token events sorted by date of creation", "token"),
    ];
    for (f, desc, tag) in cases {
        let op = f(TransformOperation::new());
        assert_eq!(op.description.as_deref(), Some(desc));
        assert_eq!(op.tags, vec![String::from(tag)]);
    }
    let op = TransformOperation::new().tag("a").description("d").tag("b");
    assert_eq!(op.tags, vec![String::from("a"), String::from("b")]);
}

#[test]
fn leak_error_texts() {
    assert_eq!(LeakError::NoOffset.message(), "leaked: offset is None");
    assert_eq!(
        LeakError::OffsetTooLarge { offset: 15, total_output: 10 }.message(),
        "leaked: offset=15 is too large for total_output=10"
    );
    assert_eq!(LeakError::Exhausted.message(), "leaked: offset exhausted");
}

#[test]
fn txid_and_inscription_texts_read_back() {
    let mut bytes = [0u8; 32];
    for (i, b) in bytes.iter_mut().enumerate() {
        *b = (i as u8).wrapping_mul(37).wrapping_add(5);
    }
    let t = Txid(bytes);
    assert_eq!(Txid::from_str(&t.to_text()), Ok(t));
    for index in [0u32, 9, 10, 4294967295] {
        let id = InscriptionId { txid: t, index };
        assert_eq!(InscriptionId::from_str(&id.to_text()), Ok(id));
    }
}

#[test]
fn holders_are_ranked_from_the_largest_balance() {
    assert_eq!(holder_page(5, 1, 2), vec![(1, 4), (2, 3)]);
    assert_eq!(holder_page(5, 3, 2), vec![(5, 0)]);
    assert_eq!(holder_page(5, 4, 2), vec![]);
}

fn row(tick: &str, created: u32, transactions: u32, holders: Option<u64>, completed: bool) -> TokenRow {
    TokenRow { tick: tick.as_bytes().to_vec(), created, transactions, holders, completed }
}

fn token_rows() -> Vec<TokenRow> {
    vec![
        row("ordi", 30, 5, Some(10), true),
        row("sats", 10, 7, None, false),
        row("orda", 20, 5, Some(3), false),
        row("pepe", 10, 9, Some(10), true),
        row("orbs", 40, 1, Some(1), false),
    ]
}

#[test]
fn token_list_sorts_stably_and_reverses_for_descending() {
    let rows = token_rows();
    let (count, pages, idx) = select_tokens(&rows, TokenFilterBy::All, None, TokenSortBy::DeployTimeAsc, 1, 10);
    assert_eq!((count, pages), (5, 1));
    assert_eq!(idx, vec![1, 3, 2, 0, 4]);
    let (_, _, idx) = select_tokens(&rows, TokenFilterBy::All, None, TokenSortBy::DeployTimeDesc, 1, 10);
    assert_eq!(idx, vec![4, 0, 2, 3, 1]);
    let (_, _, idx) = select_tokens(&rows, TokenFilterBy::All, None, TokenSortBy::HoldersAsc, 1, 10);
    assert_eq!(idx, vec![1, 4, 2, 0, 3]);
    let (_, _, idx) = select_tokens(&rows, TokenFilterBy::All, None, TokenSortBy::HoldersDesc, 1, 10);
    assert_eq!(idx, vec![3, 0, 2, 4, 1]);
    let (_, _, idx) = select_tokens(&rows, TokenFilterBy::All, None, TokenSortBy::TransactionsAsc, 1, 10);
    assert_eq!(idx, vec![4, 0, 2, 1, 3]);
    let (_, _, idx) = select_tokens(&rows, TokenFilterBy::All, None, TokenSortBy::TransactionsDesc, 1, 10);
    assert_eq!(idx, vec![3, 1, 2, 0, 4]);
}

#[test]
fn token_list_filters_searches_and_pages() {
    let rows = token_rows();
    let (count, _, idx) = select_tokens(&rows, TokenFilterBy::Completed, None, TokenSortBy::DeployTimeAsc, 1, 10);
    assert_eq!((count, idx), (2, vec![3, 0]));
    let (count, _, idx) = select_tokens(&rows, TokenFilterBy::InProgress, None, TokenSortBy::DeployTimeAsc, 1, 10);
    assert_eq!((count, idx), (3, vec![1, 2, 4]));
    let (count, _, idx) = select_tokens(&rows, TokenFilterBy::All, Some(b"or"), TokenSortBy::DeployTimeAsc, 1, 10);
    assert_eq!((count, idx), (3, vec![2, 0, 4]));
    let (count, _, idx) = select_tokens(&rows, TokenFilterBy::InProgress, Some(b"ord"), TokenSortBy::DeployTimeAsc, 1, 10);
    assert_eq!((count, idx), (1, vec![2]));
    let (count, _, idx) = select_tokens(&rows, TokenFilterBy::All, Some(b"ordinals"), TokenSortBy::DeployTimeAsc, 1, 10);
    assert_eq!((count, idx), (0, vec![]));
    let (count, pages, idx) = select_tokens(&rows, TokenFilterBy::All, None, TokenSortBy::DeployTimeAsc, 2, 2);
    assert_eq!((count, pages, idx), (5, 3, vec![2, 0]));
    let (_, _, idx) = select_tokens(&rows, TokenFilterBy::All, None, TokenSortBy::DeployTimeAsc, 4, 2);
    assert_eq!(idx, Vec::<usize>::new());
}
