use bichon::mbox_mock::generate_comprehensive_mbox;

#[test]
fn test_generate_comprehensive_mbox() {
    let mbox = generate_comprehensive_mbox();

    // Verify it contains all expected email types
    assert!(mbox.contains("Plain text test email"));
    assert!(mbox.contains("Multipart HTML and text email"));
    assert!(mbox.contains("PDF attachment"));
    assert!(mbox.contains("Marketing Campaign Screenshots"));
    assert!(mbox.contains("Multiple Attachments"));
    assert!(mbox.contains("forwarded_message.eml"));
    assert!(mbox.contains("Complex nested forwarding"));

    // Verify keywords are present
    assert!(mbox.contains("quarterly report"));
    assert!(mbox.contains("deployment"));
    assert!(mbox.contains("legal review"));
    assert!(mbox.contains("brand redesign"));
    assert!(mbox.contains("financial planning"));
    assert!(mbox.contains("patent application"));
    assert!(mbox.contains("microservices design"));
}
