use tidbyt_rs::args::{Next, RenderArgs};
use tidbyt_rs::pusher::{can_encode, push_accepted, push_endpoint, push_payload, try_push_payload};

#[test]
fn pictures_are_pushed_to_the_address_of_the_device() {
    assert_eq!(
        push_endpoint("my-device"),
        "https://api.tidbyt.com/v0/devices/my-device/push"
    );
    assert_eq!(push_endpoint(""), "https://api.tidbyt.com/v0/devices//push");
}

#[test]
fn the_payload_holds_the_picture_as_base64() {
    let payload = push_payload(&b"hello".to_vec(), "my-device");
    assert_eq!(payload.device_id, "my-device");
    assert_eq!(payload.installation_id, "custom");
    assert_eq!(payload.image, "aGVsbG8=");
    assert!(payload.background);
}

#[test]
fn base64_uses_the_standard_alphabet_with_padding() {
    assert_eq!(push_payload(&vec![], "d").image, "");
    assert_eq!(push_payload(&vec![0xfb, 0xff], "d").image, "+/8=");
    assert_eq!(push_payload(&vec![0xff, 0xff, 0xff], "d").image, "////");
    assert_eq!(push_payload(&b"a".to_vec(), "d").image, "YQ==");
}

#[test]
fn a_picture_that_can_be_encoded_gets_its_payload() {
    let picture = vec![1u8, 2, 3, 4];
    assert!(can_encode(&picture));
    assert_eq!(try_push_payload(&picture, "d"), Some(push_payload(&picture, "d")));
    assert_eq!(try_push_payload(&picture, "d").unwrap().image, "AQIDBA==");
}

#[test]
fn only_status_200_is_an_accepted_push() {
    assert!(push_accepted(200));
    assert!(!push_accepted(201));
    assert!(!push_accepted(404));
    assert!(!push_accepted(0));
}

#[test]
fn a_debug_run_renders_once() {
    let args = RenderArgs::new(Some("out.webp".to_string()), Some(30));
    assert_eq!(args.debug, Some("out.webp".to_string()));
    assert_eq!(args.retry, Some(30));
    assert_eq!(args.after_render(), Next::Stop);
    assert_eq!(RenderArgs::new(Some(String::new()), None).after_render(), Next::Stop);
}

#[test]
fn a_run_with_a_retry_time_waits_and_renders_again() {
    assert_eq!(RenderArgs::new(None, Some(30)).after_render(), Next::WaitSeconds(30));
    assert_eq!(RenderArgs::new(None, Some(0)).after_render(), Next::WaitSeconds(0));
    assert_eq!(RenderArgs::new(None, None).after_render(), Next::Stop);
}
