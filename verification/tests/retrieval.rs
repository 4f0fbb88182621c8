use starknet_event_query::error::QueryError;
use starknet_event_query::retriever::{
    Notification, PageRequest, PagedRetriever, Phase, StreamAction, StreamRetriever,
    CONNECT_TIMEOUT_SECS, PAGE_SIZE,
};
use starknet_event_query::util::parse_event;

fn wire_event(n: usize) -> String {
    format!(
        "{{\"from_address\":\"0xa\",\"keys\":[\"0x{:x}\"],\"data\":[],\"block_hash\":\"0xb{:x}\",\"block_number\":{},\"transaction_hash\":\"0x{:x}\"}}",
        n % 7,
        n,
        n / 100,
        n
    )
}

fn stored_event(n: usize) -> String {
    format!(
        "{{\"block_number\":{},\"data\":[],\"from_address\":\"0xa\",\"keys\":[\"0x{:x}\"],\"transaction_hash\":\"0x{:x}\"}}",
        n / 100,
        n % 7,
        n
    )
}

fn page(from: usize, size: usize) -> Vec<String> {
    (from..from + size).map(wire_event).collect()
}

#[test]
fn constants() {
    assert_eq!(PAGE_SIZE, 1024);
    assert_eq!(CONNECT_TIMEOUT_SECS, 5);
}

#[test]
fn paged_retrieval_starts_without_token() {
    let retriever = PagedRetriever::new(100, 105);
    assert_eq!(retriever.phase(), Phase::Active);
    assert_eq!(retriever.len(), 0);
    assert_eq!(
        retriever.next_request(),
        Some(PageRequest { from_block: 100, to_block: 105, continuation_token: None, chunk_size: 1024 })
    );
    assert_eq!(retriever.into_events(), None);
}

#[test]
fn three_pages_are_concatenated_in_page_order() {
    let mut retriever = PagedRetriever::new(100, 105);
    let sizes = [1024usize, 1024, 17];
    let tokens = [Some("t1".to_string()), Some("t2".to_string()), None];
    let mut from = 0;
    let mut asked = Vec::new();
    for (size, token) in sizes.iter().zip(tokens.iter()) {
        let request = retriever.next_request().unwrap();
        assert_eq!(request.chunk_size, 1024);
        assert_eq!((request.from_block, request.to_block), (100, 105));
        asked.push(request.continuation_token);
        assert_eq!(retriever.accept_page(&page(from, *size), token.clone()), Ok(()));
        from += size;
    }
    assert_eq!(asked, vec![None, Some("t1".to_string()), Some("t2".to_string())]);
    assert_eq!(retriever.phase(), Phase::Complete);
    assert_eq!(retriever.next_request(), None);
    assert_eq!(retriever.len(), 2065);
    let events = retriever.into_events().unwrap();
    assert_eq!(events.len(), 2065);
    let fixture: Vec<String> = (0..2065).map(stored_event).collect();
    for (event, line) in events.iter().zip(fixture.iter()) {
        assert_eq!(&event.text, line);
        assert_eq!(Ok(event.clone()), parse_event(line));
    }
}

#[test]
fn single_page_without_token_completes() {
    let mut retriever = PagedRetriever::new(100, 105);
    assert_eq!(retriever.accept_page(&page(0, 3), None), Ok(()));
    assert_eq!(retriever.phase(), Phase::Complete);
    let texts: Vec<String> = retriever.into_events().unwrap().into_iter().map(|e| e.text).collect();
    assert_eq!(texts, vec![stored_event(0), stored_event(1), stored_event(2)]);
}

#[test]
fn empty_page_without_token_completes_with_nothing() {
    let mut retriever = PagedRetriever::new(100, 105);
    assert_eq!(retriever.accept_page(&vec![], None), Ok(()));
    assert_eq!(retriever.into_events(), Some(vec![]));
}

#[test]
fn empty_page_with_token_goes_on() {
    let mut retriever = PagedRetriever::new(100, 105);
    assert_eq!(retriever.accept_page(&vec![], Some("next".to_string())), Ok(()));
    assert_eq!(retriever.phase(), Phase::Active);
    assert_eq!(
        retriever.next_request(),
        Some(PageRequest {
            from_block: 100,
            to_block: 105,
            continuation_token: Some("next".to_string()),
            chunk_size: 1024
        })
    );
}

#[test]
fn failed_request_leaves_no_partial_result() {
    let mut retriever = PagedRetriever::new(100, 105);
    assert_eq!(retriever.accept_page(&page(0, 5), Some("t".to_string())), Ok(()));
    assert_eq!(retriever.len(), 5);
    assert_eq!(retriever.fail(), QueryError::TransportError);
    assert_eq!(retriever.phase(), Phase::Failed);
    assert_eq!(retriever.len(), 0);
    assert_eq!(retriever.next_request(), None);
    assert_eq!(retriever.into_events(), None);
}

#[test]
fn malformed_event_fails_the_page() {
    let mut retriever = PagedRetriever::new(100, 105);
    assert_eq!(retriever.accept_page(&page(0, 5), Some("t".to_string())), Ok(()));
    let mut bad = page(5, 3);
    bad[1] = "[1,2]".to_string();
    assert_eq!(retriever.accept_page(&bad, None), Err(QueryError::MalformedEvent));
    assert_eq!(retriever.phase(), Phase::Failed);
    assert_eq!(retriever.len(), 0);
    assert_eq!(retriever.into_events(), None);
}

fn pushed(block_number: u64, n: usize) -> Notification {
    Notification::Event {
        block_number: Some(block_number),
        raw: format!(
            "{{\"transaction_hash\":\"0x{:x}\",\"keys\":[],\"from_address\":\"0xa\",\"data\":[],\"block_number\":{}}}",
            n, block_number
        ),
    }
}

fn pushed_text(block_number: u64, n: usize) -> String {
    format!(
        "{{\"block_number\":{},\"data\":[],\"from_address\":\"0xa\",\"keys\":[],\"transaction_hash\":\"0x{:x}\"}}",
        block_number, n
    )
}

#[test]
fn stream_stops_at_first_event_beyond_last_block() {
    let mut retriever = StreamRetriever::new(10, 12);
    assert_eq!(retriever.phase(), Phase::Active);
    assert_eq!(retriever.accept(pushed(10, 0)), StreamAction::Continue);
    assert_eq!(retriever.accept(pushed(10, 1)), StreamAction::Continue);
    assert_eq!(retriever.accept(pushed(12, 2)), StreamAction::Continue);
    assert_eq!(retriever.phase(), Phase::Active);
    assert_eq!(retriever.accept(pushed(13, 3)), StreamAction::Stop);
    assert_eq!(retriever.phase(), Phase::Complete);
    assert_eq!(retriever.len(), 3);
    let texts: Vec<String> = retriever.into_events().unwrap().into_iter().map(|e| e.text).collect();
    assert_eq!(texts, vec![pushed_text(10, 0), pushed_text(10, 1), pushed_text(12, 2)]);
}

#[test]
fn stream_takes_events_in_order_of_arrival() {
    let mut retriever = StreamRetriever::new(10, 12);
    assert_eq!(retriever.accept(pushed(11, 5)), StreamAction::Continue);
    assert_eq!(retriever.accept(pushed(10, 4)), StreamAction::Continue);
    assert_eq!(retriever.accept(pushed(u64::MAX, 0)), StreamAction::Stop);
    let texts: Vec<String> = retriever.into_events().unwrap().into_iter().map(|e| e.text).collect();
    assert_eq!(texts, vec![pushed_text(11, 5), pushed_text(10, 4)]);
}

#[test]
fn stream_may_complete_with_nothing() {
    let mut retriever = StreamRetriever::new(0, 0);
    assert_eq!(retriever.accept(pushed(1, 0)), StreamAction::Stop);
    assert_eq!(retriever.into_events(), Some(vec![]));
}

#[test]
fn stream_takes_last_representable_block() {
    let mut retriever = StreamRetriever::new(0, u64::MAX);
    assert_eq!(retriever.accept(pushed(u64::MAX, 0)), StreamAction::Continue);
    assert_eq!(retriever.phase(), Phase::Active);
    assert_eq!(retriever.into_events(), None);
}

#[test]
fn stream_fails_on_reorg_without_partial_result() {
    let mut retriever = StreamRetriever::new(10, 12);
    assert_eq!(retriever.accept(pushed(10, 0)), StreamAction::Continue);
    assert_eq!(
        retriever.accept(Notification::Reorg { starting_block_number: 9, ending_block_number: 11 }),
        StreamAction::Fail(QueryError::ReorgEncountered {
            starting_block_number: 9,
            ending_block_number: 11
        })
    );
    assert_eq!(retriever.phase(), Phase::Failed);
    assert_eq!(retriever.len(), 0);
    assert_eq!(retriever.into_events(), None);
}

#[test]
fn stream_fails_on_event_without_block_number() {
    let mut retriever = StreamRetriever::new(10, 12);
    assert_eq!(retriever.accept(pushed(10, 0)), StreamAction::Continue);
    assert_eq!(
        retriever.accept(Notification::Event { block_number: None, raw: "{}".to_string() }),
        StreamAction::Fail(QueryError::MissingBlockNumber)
    );
    assert_eq!(retriever.phase(), Phase::Failed);
    assert_eq!(retriever.into_events(), None);
}

#[test]
fn stream_fails_on_transport_failure() {
    let mut retriever = StreamRetriever::new(10, 12);
    assert_eq!(retriever.accept(pushed(10, 0)), StreamAction::Continue);
    assert_eq!(retriever.accept(Notification::Failure), StreamAction::Fail(QueryError::TransportError));
    assert_eq!(retriever.phase(), Phase::Failed);
    assert_eq!(retriever.len(), 0);
}

#[test]
fn stream_fails_on_malformed_event() {
    let mut retriever = StreamRetriever::new(10, 12);
    assert_eq!(
        retriever.accept(Notification::Event { block_number: Some(3), raw: "[]".to_string() }),
        StreamAction::Fail(QueryError::MalformedEvent)
    );
    assert_eq!(retriever.phase(), Phase::Failed);
}

#[test]
fn event_beyond_last_block_is_not_read() {
    let mut retriever = StreamRetriever::new(10, 12);
    assert_eq!(
        retriever.accept(Notification::Event { block_number: Some(13), raw: "no json".to_string() }),
        StreamAction::Stop
    );
    assert_eq!(retriever.into_events(), Some(vec![]));
}

#[test]
fn complete_paged_retrieval_takes_no_page() {
    let mut retriever = PagedRetriever::new(100, 105);
    assert_eq!(retriever.accept_page(&page(0, 2), None), Ok(()));
    assert_eq!(retriever.accept_page(&page(2, 2), None), Err(QueryError::TransportError));
    assert_eq!(retriever.phase(), Phase::Complete);
    assert_eq!(retriever.len(), 2);
    let texts: Vec<String> = retriever.into_events().unwrap().into_iter().map(|e| e.text).collect();
    assert_eq!(texts, vec![stored_event(0), stored_event(1)]);
}

#[test]
fn failed_paged_retrieval_takes_no_page() {
    let mut retriever = PagedRetriever::new(100, 105);
    assert_eq!(retriever.fail(), QueryError::TransportError);
    assert_eq!(retriever.accept_page(&page(0, 2), None), Err(QueryError::TransportError));
    assert_eq!(retriever.phase(), Phase::Failed);
    assert_eq!(retriever.len(), 0);
}

#[test]
fn stream_starts_at_first_block() {
    let retriever = StreamRetriever::new(10, 12);
    assert_eq!(retriever.start_block(), 10);
    assert_eq!(retriever.phase(), Phase::Active);
    assert_eq!(retriever.len(), 0);
}

#[test]
fn complete_stream_takes_nothing_more() {
    let mut retriever = StreamRetriever::new(10, 12);
    assert_eq!(retriever.accept(pushed(11, 0)), StreamAction::Continue);
    assert_eq!(retriever.accept(pushed(13, 1)), StreamAction::Stop);
    assert_eq!(retriever.accept(pushed(11, 2)), StreamAction::Stop);
    assert_eq!(
        retriever.accept(Notification::Reorg { starting_block_number: 1, ending_block_number: 2 }),
        StreamAction::Stop
    );
    assert_eq!(retriever.phase(), Phase::Complete);
    let texts: Vec<String> = retriever.into_events().unwrap().into_iter().map(|e| e.text).collect();
    assert_eq!(texts, vec![pushed_text(11, 0)]);
}

#[test]
fn failed_stream_takes_nothing_more() {
    let mut retriever = StreamRetriever::new(10, 12);
    assert_eq!(retriever.accept(Notification::Failure), StreamAction::Fail(QueryError::TransportError));
    assert_eq!(retriever.accept(pushed(11, 2)), StreamAction::Stop);
    assert_eq!(retriever.phase(), Phase::Failed);
    assert_eq!(retriever.into_events(), None);
}
