use screen_recorder::tasks::{history_panic_message, panic_payload_message, thread_panic_message};
use std::any::Any;

fn payload_text(payload: &(dyn Any + Send)) -> Option<String> {
    if let Some(message) = payload.downcast_ref::<&str>() {
        return Some((*message).to_string());
    }
    payload.downcast_ref::<String>().cloned()
}

#[test]
fn panic_payload_message_reads_str_payload() {
    let payload: &(dyn Any + Send) = &"boom";
    assert_eq!(panic_payload_message(payload_text(payload)), "boom");
}

#[test]
fn panic_payload_message_reads_string_payload() {
    let payload: &(dyn Any + Send) = &"boom".to_string();
    assert_eq!(panic_payload_message(payload_text(payload)), "boom");
}

#[test]
fn panic_payload_message_without_text_uses_placeholder() {
    let payload: &(dyn Any + Send) = &42u8;
    assert_eq!(panic_payload_message(payload_text(payload)), "未知 panic payload");
    assert_eq!(history_panic_message(None), "历史视频生成线程异常退出");
    assert_eq!(thread_panic_message("capture", "boom"), "capture panic: boom");
}
