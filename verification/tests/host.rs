use gal_runtime::abi::{
    async_export_name, mem_slice, mem_write, pack, poll_value, polled, unpack, Fault, Polled,
    PENDING,
};
use gal_runtime::host::{
    check_exports, method_reply, Action, Call, CallError, Event, Host, Phase, Release,
};
use gal_runtime::integer::Integer;
use gal_runtime::script::Reply;
use gal_runtime::text::has_ending;
use gal_runtime::value::RawValue;

fn names(list: &[&str]) -> Vec<String> {
    list.iter().map(|s| s.to_string()).collect()
}

fn sync_exports() -> Vec<String> {
    names(&["memory", "__abi_alloc", "__abi_free", "__export_free", "plugin_type", "fmt"])
}

fn async_exports() -> Vec<String> {
    names(&[
        "__abi_alloc",
        "__abi_free",
        "__export_free",
        "__export_async_poll",
        "__export_async_free",
        "plugin_type",
        "sleep_async",
    ])
}

#[test]
fn length_and_address_share_a_number() {
    assert_eq!(pack(0, 0), 0);
    assert_eq!(pack(1, 2), 0x1_0000_0002);
    assert_eq!(pack(0x12345678, 0x9abcdef0), 0x12345678_9abcdef0);
    assert_eq!(pack(u32::MAX, u32::MAX), u64::MAX);
    assert_eq!(unpack(0x1_0000_0002), (1, 2));
    assert_eq!(unpack(0x12345678_9abcdef0), (0x12345678, 0x9abcdef0));
    assert_eq!(unpack(7), (0, 7));
    for raw in [0u64, 1, u64::MAX, 0xdead_beef_0000_0001, 1 << 32, (1 << 32) - 1] {
        let (len, ptr) = unpack(raw);
        assert_eq!(pack(len, ptr), raw);
        assert_eq!((len as u64) << 32 | ptr as u64, raw);
    }
}

#[test]
fn all_bits_set_means_pending() {
    assert_eq!(PENDING, u64::MAX);
    assert_eq!(polled(PENDING), Polled::Pending);
    assert_eq!(polled(0), Polled::Ready { len: 0, ptr: 0 });
    assert_eq!(polled(0x3_0000_0040), Polled::Ready { len: 3, ptr: 0x40 });
    assert_eq!(polled(u64::MAX - 1), Polled::Ready { len: u32::MAX, ptr: u32::MAX - 1 });
    assert_eq!(poll_value(Polled::Pending), u64::MAX);
    assert_eq!(poll_value(Polled::Ready { len: 3, ptr: 0x40 }), 0x3_0000_0040);
    assert_eq!(polled(poll_value(Polled::Ready { len: 9, ptr: 1 })), Polled::Ready { len: 9, ptr: 1 });
}

#[test]
fn memory_is_read_within_bounds_only() {
    let memory = vec![10u8, 11, 12, 13, 14];
    assert_eq!(mem_slice(&memory, 1, 3), Ok(&memory[1..4]));
    assert_eq!(mem_slice(&memory, 0, 5), Ok(&memory[..]));
    assert_eq!(mem_slice(&memory, 5, 0), Ok(&memory[5..]));
    assert_eq!(mem_slice(&memory, 3, 3), Err(Fault { ptr: 3, len: 3 }));
    assert_eq!(mem_slice(&memory, 6, 0), Err(Fault { ptr: 6, len: 0 }));
    assert_eq!(
        mem_slice(&memory, u32::MAX, u32::MAX),
        Err(Fault { ptr: u32::MAX, len: u32::MAX as u64 })
    );
}

#[test]
fn memory_is_written_within_bounds_only() {
    let mut memory = vec![0u8; 6];
    assert_eq!(mem_write(&mut memory, 2, &[7, 8, 9]), Ok(()));
    assert_eq!(memory, vec![0, 0, 7, 8, 9, 0]);
    assert_eq!(mem_write(&mut memory, 4, &[1, 2, 3]), Err(Fault { ptr: 4, len: 3 }));
    assert_eq!(memory, vec![0, 0, 7, 8, 9, 0]);
    assert_eq!(mem_write(&mut memory, 6, &[]), Ok(()));
    assert_eq!(mem_write(&mut memory, 7, &[]), Err(Fault { ptr: 7, len: 0 }));
    assert_eq!(mem_write(&mut memory, 0, &[1, 2, 3, 4, 5, 6]), Ok(()));
    assert_eq!(memory, vec![1, 2, 3, 4, 5, 6]);
}

#[test]
fn asynchronous_exports_have_a_suffix() {
    assert_eq!(async_export_name("sleep"), "sleep_async");
    assert_eq!(async_export_name(""), "_async");
    assert!(has_ending("sleep_async", "_async"));
    assert!(has_ending("_async", "_async"));
    assert!(!has_ending("async", "_async"));
    assert!(!has_ending("sleep_async2", "_async"));
    assert!(has_ending("anything", ""));
}

#[test]
fn a_host_needs_its_exports() {
    assert!(check_exports(&sync_exports()).is_ok());
    assert!(check_exports(&async_exports()).is_ok());
    assert!(Host::new(sync_exports()).is_ok());
    assert_eq!(check_exports(&vec![]), Err("__abi_free".to_string()));
    assert_eq!(
        check_exports(&names(&["__abi_free"])),
        Err("__abi_alloc".to_string())
    );
    assert_eq!(
        check_exports(&names(&["__abi_free", "__abi_alloc"])),
        Err("__export_free".to_string())
    );
    assert_eq!(
        check_exports(&names(&["__abi_free", "__abi_alloc", "__export_free", "sleep_async"])),
        Err("__export_async_poll".to_string())
    );
    assert_eq!(
        check_exports(&names(&[
            "__abi_free",
            "__abi_alloc",
            "__export_free",
            "sleep_async",
            "__export_async_poll"
        ])),
        Err("__export_async_free".to_string())
    );
    assert_eq!(
        Host::new(names(&["__abi_alloc", "__export_free"])).err(),
        Some("__abi_free".to_string())
    );
}

fn expect_action(got: Action, want: Action) {
    assert_eq!(format!("{:?}", got), format!("{:?}", want));
}

#[test]
fn a_synchronous_call_step_by_step() {
    let host = Host::new(sync_exports()).unwrap();
    let mut call = host.call("fmt", vec![1, 2, 3]);
    assert_eq!(call.phase(), Phase::Start);
    assert_eq!(call.args(), &vec![1u8, 2, 3]);
    expect_action(call.step(Event::Begin), Action::Allocate { size: 3, align: 8 });
    expect_action(call.step(Event::Allocated(64)), Action::WriteArgs { ptr: 64 });
    expect_action(call.step(Event::Done), Action::Resolve { name: "fmt".to_string() });
    expect_action(
        call.step(Event::Found),
        Action::Invoke { name: "fmt".to_string(), len: 3, ptr: 64 },
    );
    expect_action(
        call.step(Event::Returned(pack(5, 128))),
        Action::Read { ptr: 128, len: 5 },
    );
    assert_eq!(call.phase(), Phase::Reading);
    expect_action(
        call.step(Event::Bytes(vec![9, 8, 7, 6, 5])),
        Action::Release(Release::Result { len: 5, ptr: 128 }),
    );
    expect_action(
        call.step(Event::Done),
        Action::Release(Release::Buffer { ptr: 64, size: 3, align: 8 }),
    );
    expect_action(call.step(Event::Done), Action::Finish);
    assert_eq!(call.phase(), Phase::Finished);
    expect_action(call.step(Event::Done), Action::Finish);
    assert_eq!(call.into_result(), Ok(vec![9, 8, 7, 6, 5]));
}

#[test]
fn an_asynchronous_call_step_by_step() {
    let host = Host::new(async_exports()).unwrap();
    let mut call = host.call("sleep", vec![0x91, 0x90]);
    expect_action(call.step(Event::Begin), Action::Allocate { size: 2, align: 8 });
    expect_action(call.step(Event::Allocated(16)), Action::WriteArgs { ptr: 16 });
    expect_action(call.step(Event::Done), Action::Resolve { name: "sleep".to_string() });
    expect_action(
        call.step(Event::NotFound),
        Action::Resolve { name: "sleep_async".to_string() },
    );
    expect_action(
        call.step(Event::Found),
        Action::Invoke { name: "sleep_async".to_string(), len: 2, ptr: 16 },
    );
    let future = 0xabcd_0000_1234u64;
    expect_action(call.step(Event::Returned(future)), Action::Allocate { size: 8, align: 8 });
    expect_action(call.step(Event::Allocated(32)), Action::Poll { future, slot: 32 });
    expect_action(call.step(Event::Returned(PENDING)), Action::AwaitWake);
    assert_eq!(call.phase(), Phase::Waiting { future, slot: 32 });
    expect_action(call.step(Event::Woken), Action::Poll { future, slot: 32 });
    expect_action(call.step(Event::Returned(PENDING)), Action::AwaitWake);
    expect_action(call.step(Event::Woken), Action::Poll { future, slot: 32 });
    expect_action(call.step(Event::Returned(pack(1, 48))), Action::Read { ptr: 48, len: 1 });
    expect_action(
        call.step(Event::Bytes(vec![0xc0])),
        Action::Release(Release::Result { len: 1, ptr: 48 }),
    );
    expect_action(call.step(Event::Done), Action::Release(Release::Future { handle: future }));
    expect_action(
        call.step(Event::Done),
        Action::Release(Release::Buffer { ptr: 32, size: 8, align: 8 }),
    );
    expect_action(
        call.step(Event::Done),
        Action::Release(Release::Buffer { ptr: 16, size: 2, align: 8 }),
    );
    expect_action(call.step(Event::Done), Action::Finish);
    assert_eq!(call.into_result(), Ok(vec![0xc0]));
}

#[test]
fn a_method_that_is_not_there_is_not_found() {
    let mut call = Call::new("nowhere".to_string(), vec![0xc0]);
    call.step(Event::Begin);
    call.step(Event::Allocated(8));
    call.step(Event::Done);
    expect_action(
        call.step(Event::NotFound),
        Action::Resolve { name: "nowhere_async".to_string() },
    );
    expect_action(
        call.step(Event::NotFound),
        Action::Release(Release::Buffer { ptr: 8, size: 1, align: 8 }),
    );
    expect_action(call.step(Event::Done), Action::Fail(CallError::NotFound));
    assert_eq!(call.phase(), Phase::Failed(CallError::NotFound));
    assert_eq!(call.into_result(), Err(CallError::NotFound));
}

#[test]
fn an_error_of_the_engine_ends_the_call() {
    let mut call = Call::new("m".to_string(), vec![]);
    call.step(Event::Begin);
    call.step(Event::Allocated(8));
    expect_action(
        call.step(Event::Trapped),
        Action::Release(Release::Buffer { ptr: 8, size: 0, align: 8 }),
    );
    assert_eq!(call.phase(), Phase::Releasing { next: 0 });
    expect_action(call.step(Event::Done), Action::Fail(CallError::Trapped));
    expect_action(call.step(Event::Done), Action::Fail(CallError::Trapped));
    assert_eq!(call.into_result(), Err(CallError::Trapped));
}

#[test]
fn an_error_before_anything_is_held_ends_the_call_at_once() {
    let mut call = Call::new("m".to_string(), vec![1]);
    expect_action(call.step(Event::Trapped), Action::Fail(CallError::Trapped));
    let mut call = Call::new("m".to_string(), vec![1]);
    call.step(Event::Begin);
    expect_action(call.step(Event::Trapped), Action::Fail(CallError::Trapped));
    assert_eq!(call.into_result(), Err(CallError::Trapped));
}

#[test]
fn an_error_of_the_invocation_gives_the_arguments_back() {
    let mut call = Call::new("m".to_string(), vec![1, 2]);
    call.step(Event::Begin);
    call.step(Event::Allocated(64));
    call.step(Event::Done);
    call.step(Event::Found);
    expect_action(
        call.step(Event::Trapped),
        Action::Release(Release::Buffer { ptr: 64, size: 2, align: 8 }),
    );
    expect_action(call.step(Event::Done), Action::Fail(CallError::Trapped));
    assert_eq!(call.into_result(), Err(CallError::Trapped));
}

#[test]
fn a_result_that_cannot_be_read_is_given_back_with_the_arguments() {
    let mut call = Call::new("m".to_string(), vec![1, 2]);
    call.step(Event::Begin);
    call.step(Event::Allocated(64));
    call.step(Event::Done);
    call.step(Event::Found);
    expect_action(
        call.step(Event::Returned(pack(5, 0xffff_0000))),
        Action::Read { ptr: 0xffff_0000, len: 5 },
    );
    expect_action(
        call.step(Event::Trapped),
        Action::Release(Release::Result { len: 5, ptr: 0xffff_0000 }),
    );
    expect_action(
        call.step(Event::Done),
        Action::Release(Release::Buffer { ptr: 64, size: 2, align: 8 }),
    );
    expect_action(call.step(Event::Done), Action::Fail(CallError::Trapped));
    assert_eq!(call.into_result(), Err(CallError::Trapped));
}

#[test]
fn an_error_while_a_future_is_pending_gives_everything_back() {
    let mut call = Call::new("m".to_string(), vec![7]);
    call.step(Event::Begin);
    call.step(Event::Allocated(16));
    call.step(Event::Done);
    call.step(Event::NotFound);
    call.step(Event::Found);
    call.step(Event::Returned(77));
    call.step(Event::Allocated(24));
    expect_action(call.step(Event::Returned(PENDING)), Action::AwaitWake);
    expect_action(
        call.step(Event::Trapped),
        Action::Release(Release::Future { handle: 77 }),
    );
    expect_action(
        call.step(Event::Done),
        Action::Release(Release::Buffer { ptr: 24, size: 8, align: 8 }),
    );
    expect_action(
        call.step(Event::Done),
        Action::Release(Release::Buffer { ptr: 16, size: 1, align: 8 }),
    );
    expect_action(call.step(Event::Done), Action::Fail(CallError::Trapped));
}

#[test]
fn an_error_before_the_waker_slot_is_there_gives_the_rest_back() {
    let mut call = Call::new("m".to_string(), vec![7]);
    call.step(Event::Begin);
    call.step(Event::Allocated(16));
    call.step(Event::Done);
    call.step(Event::NotFound);
    call.step(Event::Found);
    call.step(Event::Returned(77));
    expect_action(
        call.step(Event::Trapped),
        Action::Release(Release::Future { handle: 77 }),
    );
    expect_action(
        call.step(Event::Done),
        Action::Release(Release::Buffer { ptr: 16, size: 1, align: 8 }),
    );
    expect_action(call.step(Event::Done), Action::Fail(CallError::Trapped));
}

#[test]
fn a_release_that_goes_wrong_does_not_stop_the_others() {
    let mut call = Call::new("m".to_string(), vec![1, 2, 3]);
    call.step(Event::Begin);
    call.step(Event::Allocated(64));
    call.step(Event::Done);
    call.step(Event::Found);
    call.step(Event::Returned(pack(5, 128)));
    expect_action(
        call.step(Event::Bytes(vec![9, 8, 7, 6, 5])),
        Action::Release(Release::Result { len: 5, ptr: 128 }),
    );
    expect_action(
        call.step(Event::Trapped),
        Action::Release(Release::Buffer { ptr: 64, size: 3, align: 8 }),
    );
    expect_action(call.step(Event::Done), Action::Fail(CallError::Trapped));
    assert_eq!(call.into_result(), Err(CallError::Trapped));
}

#[test]
fn the_first_failure_is_the_one_that_is_reported() {
    let mut call = Call::new("nowhere".to_string(), vec![0xc0]);
    call.step(Event::Begin);
    call.step(Event::Allocated(8));
    call.step(Event::Done);
    call.step(Event::NotFound);
    expect_action(
        call.step(Event::NotFound),
        Action::Release(Release::Buffer { ptr: 8, size: 1, align: 8 }),
    );
    expect_action(call.step(Event::Trapped), Action::Fail(CallError::NotFound));
}

#[test]
fn an_event_out_of_turn_ends_the_call() {
    let mut call = Call::new("m".to_string(), vec![]);
    expect_action(call.step(Event::Done), Action::Fail(CallError::Protocol));
    assert_eq!(call.into_result(), Err(CallError::Protocol));
    let mut call = Call::new("m".to_string(), vec![]);
    call.step(Event::Begin);
    call.step(Event::Allocated(8));
    call.step(Event::Done);
    call.step(Event::Found);
    call.step(Event::Returned(pack(1, 2)));
    expect_action(
        call.step(Event::Woken),
        Action::Release(Release::Result { len: 1, ptr: 2 }),
    );
    expect_action(
        call.step(Event::Done),
        Action::Release(Release::Buffer { ptr: 8, size: 0, align: 8 }),
    );
    expect_action(call.step(Event::Done), Action::Fail(CallError::Protocol));
    assert_eq!(call.into_result(), Err(CallError::Protocol));
}

#[test]
fn a_waiting_call_polls_only_when_woken() {
    let mut call = Call::new("m".to_string(), vec![]);
    call.step(Event::Begin);
    call.step(Event::Allocated(8));
    call.step(Event::Done);
    call.step(Event::NotFound);
    call.step(Event::Found);
    call.step(Event::Returned(77));
    call.step(Event::Allocated(24));
    expect_action(call.step(Event::Returned(PENDING)), Action::AwaitWake);
    expect_action(
        call.step(Event::Returned(5)),
        Action::Release(Release::Future { handle: 77 }),
    );
    call.step(Event::Done);
    call.step(Event::Done);
    expect_action(call.step(Event::Done), Action::Fail(CallError::Protocol));
}

#[test]
fn a_call_under_way_has_no_result() {
    let mut call = Call::new("m".to_string(), vec![]);
    call.step(Event::Begin);
    assert_eq!(call.into_result(), Err(CallError::Protocol));
}

#[test]
fn typed_calls_have_their_names_and_arguments() {
    let host = Host::new(sync_exports()).unwrap();
    let mut call = host.plugin_type();
    assert_eq!(call.args(), &vec![0xc0u8]);
    call.step(Event::Begin);
    call.step(Event::Allocated(0));
    expect_action(
        call.step(Event::Done),
        Action::Resolve { name: "plugin_type".to_string() },
    );
    let mut call = host.text_commands();
    assert_eq!(call.args(), &vec![0xc0u8]);
    call.step(Event::Begin);
    call.step(Event::Allocated(0));
    expect_action(
        call.step(Event::Done),
        Action::Resolve { name: "text_commands".to_string() },
    );
    let args = vec![RawValue::Str("Hello {}!".to_string()), RawValue::Num(Integer::from_i64(114514))];
    let mut call = host.dispatch_method("fmt", &args).unwrap();
    assert_eq!(
        call.args(),
        &rmp_serde::to_vec(&(("Hello {}!", num_bigint::BigInt::from(114514)),)).unwrap()
    );
    call.step(Event::Begin);
    call.step(Event::Allocated(0));
    expect_action(call.step(Event::Done), Action::Resolve { name: "fmt".to_string() });
    let context = rmp_serde::to_vec(&("title", 3u8)).unwrap();
    let call = host.process_action(&context);
    assert_eq!(call.args(), &rmp_serde::to_vec(&(("title", 3u8),)).unwrap());
    let call = host.process_game(&context);
    assert_eq!(call.args(), &rmp_serde::to_vec(&(("title", 3u8),)).unwrap());
    let arguments = names(&["a", "bc"]);
    let call = host.dispatch_command("bold", &arguments, &context).unwrap();
    assert_eq!(
        call.args(),
        &rmp_serde::to_vec(&(vec!["a", "bc"], ("title", 3u8))).unwrap()
    );
}

#[test]
fn the_result_of_a_method_becomes_a_reply() {
    assert!(matches!(
        method_reply(Ok(vec![0xc3])),
        Reply::Returned(RawValue::Bool(true))
    ));
    assert!(matches!(
        method_reply(Ok(vec![0x92, 0x01, 0x91, 0x07, 0xff])),
        Reply::Returned(RawValue::Num(_))
    ));
    assert!(matches!(method_reply(Ok(vec![0xc1])), Reply::Failed));
    assert!(matches!(method_reply(Ok(vec![])), Reply::Failed));
    assert!(matches!(method_reply(Err(CallError::NotFound)), Reply::Failed));
    assert!(matches!(method_reply(Err(CallError::Trapped)), Reply::Failed));
}
