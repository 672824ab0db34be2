use rpc_core::basics::{WsResponse, WsStreamResponse};
use rpc_core::json::JsonValue;
use rpc_core::push::SubscribeManager;
use rpc_core::toolbox::Toolbox;

fn queue_toolbox(conns: &[u32]) -> Toolbox {
    let mut tb = Toolbox::new();
    tb.set_ws_states(false);
    for c in conns {
        tb.states.insert(*c);
    }
    tb
}

fn stream_msg(method: u32, stream_seq: u32, resource: &str, data: JsonValue) -> WsResponse {
    WsResponse::Stream(WsStreamResponse {
        method,
        stream_seq,
        resource: resource.to_string(),
        data,
    })
}

#[test]
fn publish_delivers_one_message_per_subscriber_with_increasing_seq() {
    let mut tb = queue_toolbox(&[1, 2, 3]);
    let mut mgr = SubscribeManager::new();
    mgr.add_topic("prices".to_string(), 44);
    mgr.subscribe("prices".to_string(), 1);
    mgr.subscribe("prices".to_string(), 2);
    mgr.subscribe("prices".to_string(), 3);

    mgr.publish(&mut tb, "prices", &JsonValue::Str("tick1".to_string()));
    mgr.publish(&mut tb, "prices", &JsonValue::Str("tick2".to_string()));

    for c in [1u32, 2, 3] {
        // Exactly two Stream messages, stream_seq starting at 0 and
        // increasing by exactly one per delivered publish.
        assert_eq!(
            tb.states.pop_msg(c).unwrap(),
            stream_msg(44, 0, "prices", JsonValue::Str("tick1".to_string()))
        );
        assert_eq!(
            tb.states.pop_msg(c).unwrap(),
            stream_msg(44, 1, "prices", JsonValue::Str("tick2".to_string()))
        );
        assert!(tb.states.pop_msg(c).is_none());
    }
}

#[test]
fn subscribing_twice_has_no_additional_effect() {
    let mut tb = queue_toolbox(&[1]);
    let mut mgr = SubscribeManager::new();
    mgr.add_topic("prices".to_string(), 44);
    mgr.subscribe("prices".to_string(), 1);
    mgr.publish(&mut tb, "prices", &JsonValue::Null);
    // A second subscribe must not reset the cursor nor duplicate delivery.
    mgr.subscribe("prices".to_string(), 1);
    mgr.publish(&mut tb, "prices", &JsonValue::Null);

    assert_eq!(mgr.subscriber_ids("prices"), vec![1]);
    assert_eq!(tb.states.pop_msg(1).unwrap(), stream_msg(44, 0, "prices", JsonValue::Null));
    assert_eq!(tb.states.pop_msg(1).unwrap(), stream_msg(44, 1, "prices", JsonValue::Null));
    assert!(tb.states.pop_msg(1).is_none());
}

#[test]
fn dead_subscriber_is_pruned_without_affecting_others() {
    let mut tb = queue_toolbox(&[1, 2, 3]);
    let mut mgr = SubscribeManager::new();
    mgr.add_topic("prices".to_string(), 44);
    mgr.subscribe("prices".to_string(), 1);
    mgr.subscribe("prices".to_string(), 2);
    mgr.subscribe("prices".to_string(), 3);
    mgr.publish(&mut tb, "prices", &JsonValue::Int(1));

    // Connection 2 goes away; the next publish prunes it.
    tb.states.remove(2);
    mgr.publish(&mut tb, "prices", &JsonValue::Int(2));
    assert_eq!(mgr.subscriber_ids("prices"), vec![1, 3]);

    // The survivors' delivery and sequencing are unaffected.
    mgr.publish(&mut tb, "prices", &JsonValue::Int(3));
    for c in [1u32, 3] {
        assert_eq!(tb.states.pop_msg(c).unwrap(), stream_msg(44, 0, "prices", JsonValue::Int(1)));
        assert_eq!(tb.states.pop_msg(c).unwrap(), stream_msg(44, 1, "prices", JsonValue::Int(2)));
        assert_eq!(tb.states.pop_msg(c).unwrap(), stream_msg(44, 2, "prices", JsonValue::Int(3)));
        assert!(tb.states.pop_msg(c).is_none());
    }
}

#[test]
fn unsubscribe_and_resubscribe_resets_cursor() {
    let mut tb = queue_toolbox(&[1]);
    let mut mgr = SubscribeManager::new();
    mgr.add_topic("prices".to_string(), 44);
    mgr.subscribe("prices".to_string(), 1);
    mgr.publish(&mut tb, "prices", &JsonValue::Null);
    mgr.unsubscribe("prices", 1);
    assert_eq!(mgr.subscriber_ids("prices"), Vec::<u32>::new());
    // Unsubscribing from a topic not joined has no effect.
    mgr.unsubscribe("prices", 1);
    mgr.unsubscribe("absent", 1);

    mgr.subscribe("prices".to_string(), 1);
    mgr.publish(&mut tb, "prices", &JsonValue::Null);
    assert_eq!(tb.states.pop_msg(1).unwrap(), stream_msg(44, 0, "prices", JsonValue::Null));
    assert_eq!(tb.states.pop_msg(1).unwrap(), stream_msg(44, 0, "prices", JsonValue::Null));
    assert!(tb.states.pop_msg(1).is_none());
}

#[test]
fn publish_to_unknown_topic_is_a_no_op() {
    let mut tb = queue_toolbox(&[1]);
    let mut mgr = SubscribeManager::new();
    mgr.subscribe("prices".to_string(), 1);
    mgr.publish(&mut tb, "nobody-listens", &JsonValue::Null);
    assert!(tb.states.pop_msg(1).is_none());
}

#[test]
fn multi_topic_subscribe_and_unsubscribe() {
    let mut tb = queue_toolbox(&[1]);
    let mut mgr = SubscribeManager::new();
    mgr.add_topics(vec!["a".to_string(), "b".to_string()], 9);
    mgr.subscribe_multi(vec!["a".to_string(), "b".to_string()], 1);
    assert_eq!(mgr.subscriber_ids("a"), vec![1]);
    assert_eq!(mgr.subscriber_ids("b"), vec![1]);
    mgr.publish(&mut tb, "a", &JsonValue::Null);
    mgr.publish(&mut tb, "b", &JsonValue::Null);
    assert_eq!(tb.states.pop_msg(1).unwrap(), stream_msg(9, 0, "a", JsonValue::Null));
    assert_eq!(tb.states.pop_msg(1).unwrap(), stream_msg(9, 0, "b", JsonValue::Null));
    mgr.unsubscribe_multi(vec!["a".to_string(), "b".to_string()], 1);
    assert_eq!(mgr.subscriber_ids("a"), Vec::<u32>::new());
    assert_eq!(mgr.subscriber_ids("b"), Vec::<u32>::new());
}
