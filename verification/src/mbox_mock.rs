//! A fixture MBOX generator: seven messages of the shapes the archive must
//! handle — plain text, alternative text and HTML, attachments of several
//! types, and messages nested inside messages — used by the tests to
//! exercise the import path end to end.

use crate::ingest::b64_std_encode;
use vstd::prelude::*;
use vstd::string::StringExecFns;

verus! {

fn generate_plain_text_email() -> String {
    let mut m = String::new();
    m.append("From MAILER-DAEMON Mon Dec 04 10:00:00 2025\n");
    m.append("From: alice@example.com\n");
    m.append("To: bob@example.com\n");
    m.append("Subject: Plain text test email\n");
    m.append("Date: Mon, 4 Dec 2025 10:00:00 -0500\n");
    m.append("Message-ID: <plain-001@example.com>\n");
    m.append("Content-Type: text/plain; charset=utf-8\n");
    m.append("\n");
    m.append("This is a plain text email for testing keyword search.\n");
    m.append("Important keywords: quarterly report, financial analysis, Q4 results.\n");
    m.append("\n");
    m.append("Best regards,\nAlice\n");
    m
}

fn generate_multipart_alternative_email() -> String {
    let mut m = String::new();
    m.append("From MAILER-DAEMON Mon Dec 04 11:00:00 2025\n");
    m.append("From: charlie@example.com\n");
    m.append("To: diana@example.com\n");
    m.append("Subject: Multipart HTML and text email\n");
    m.append("Date: Mon, 4 Dec 2025 11:00:00 -0500\n");
    m.append("Message-ID: <multipart-001@example.com>\n");
    m.append("MIME-Version: 1.0\n");
    m.append("Content-Type: multipart/alternative; boundary=\"alt-12345\"\n");
    m.append("\n");
    m.append("--alt-12345\n");
    m.append("Content-Type: text/plain; charset=utf-8\n");
    m.append("\n");
    m.append("Project milestone ahead.\n");
    m.append("Keywords: deployment, production release, staging environment.\n");
    m.append("\n");
    m.append("--alt-12345\n");
    m.append("Content-Type: text/html; charset=utf-8\n");
    m.append("\n");
    m.append("<html><body><p>Milestone: <strong>Phase 2 completion</strong>.</p></body></html>\n");
    m.append("--alt-12345--\n");
    m
}

fn generate_email_with_pdf_attachment() -> String {
    let pdf = b64_std_encode("%PDF-1.4 minimal fixture document".as_bytes());
    let mut m = String::new();
    m.append("From MAILER-DAEMON Mon Dec 04 12:00:00 2025\n");
    m.append("From: frank@example.com\n");
    m.append("To: grace@example.com\n");
    m.append("Subject: Email with PDF attachment - Contract Review\n");
    m.append("Date: Mon, 4 Dec 2025 12:00:00 -0500\n");
    m.append("Message-ID: <pdf-attachment-001@example.com>\n");
    m.append("MIME-Version: 1.0\n");
    m.append("Content-Type: multipart/mixed; boundary=\"mixed-pdf-67890\"\n");
    m.append("\n");
    m.append("--mixed-pdf-67890\n");
    m.append("Content-Type: text/plain; charset=utf-8\n");
    m.append("\n");
    m.append("Please review the attached contract document.\n");
    m.append("Keywords: legal review, vendor contract, compliance check.\n");
    m.append("\n");
    m.append("--mixed-pdf-67890\n");
    m.append("Content-Type: application/pdf; name=\"contract_2025.pdf\"\n");
    m.append("Content-Transfer-Encoding: base64\n");
    m.append("Content-Disposition: attachment; filename=\"contract_2025.pdf\"\n");
    m.append("\n");
    m.append(pdf.as_str());
    m.append("\n--mixed-pdf-67890--\n");
    m
}

fn generate_email_with_image_attachment() -> String {
    let png = b64_std_encode("png-fixture-bytes".as_bytes());
    let mut m = String::new();
    m.append("From MAILER-DAEMON Mon Dec 04 13:00:00 2025\n");
    m.append("From: henry@example.com\n");
    m.append("To: iris@example.com\n");
    m.append("Subject: Marketing Campaign Screenshots\n");
    m.append("Date: Mon, 4 Dec 2025 13:00:00 -0500\n");
    m.append("Message-ID: <image-attachment-001@example.com>\n");
    m.append("MIME-Version: 1.0\n");
    m.append("Content-Type: multipart/mixed; boundary=\"mixed-img-11111\"\n");
    m.append("\n");
    m.append("--mixed-img-11111\n");
    m.append("Content-Type: text/plain; charset=utf-8\n");
    m.append("\n");
    m.append("Attached are the screenshots from the new campaign.\n");
    m.append("Keywords: brand redesign, logo update, color palette.\n");
    m.append("\n");
    m.append("--mixed-img-11111\n");
    m.append("Content-Type: image/png; name=\"campaign_mockup.png\"\n");
    m.append("Content-Transfer-Encoding: base64\n");
    m.append("Content-Disposition: attachment; filename=\"campaign_mockup.png\"\n");
    m.append("\n");
    m.append(png.as_str());
    m.append("\n--mixed-img-11111--\n");
    m
}

fn generate_email_with_multiple_attachments() -> String {
    let notes = b64_std_encode("Meeting notes: budget approved".as_bytes());
    let csv = b64_std_encode("Name,Budget\nEngineering,5000000".as_bytes());
    let mut m = String::new();
    m.append("From MAILER-DAEMON Mon Dec 04 14:00:00 2025\n");
    m.append("From: jack@example.com\n");
    m.append("To: kelly@example.com\n");
    m.append("Subject: Q4 Budget Report - Multiple Attachments\n");
    m.append("Date: Mon, 4 Dec 2025 14:00:00 -0500\n");
    m.append("Message-ID: <multi-attach-001@example.com>\n");
    m.append("MIME-Version: 1.0\n");
    m.append("Content-Type: multipart/mixed; boundary=\"multi-22222\"\n");
    m.append("\n");
    m.append("--multi-22222\n");
    m.append("Content-Type: text/plain; charset=utf-8\n");
    m.append("\n");
    m.append("Please find attached the budget report and meeting notes.\n");
    m.append("Keywords: financial planning, resource allocation.\n");
    m.append("\n");
    m.append("--multi-22222\n");
    m.append("Content-Type: text/plain; name=\"meeting_notes.txt\"\n");
    m.append("Content-Transfer-Encoding: base64\n");
    m.append("Content-Disposition: attachment; filename=\"meeting_notes.txt\"\n");
    m.append("\n");
    m.append(notes.as_str());
    m.append("\n--multi-22222\n");
    m.append("Content-Type: text/csv; name=\"budget_breakdown.csv\"\n");
    m.append("Content-Transfer-Encoding: base64\n");
    m.append("Content-Disposition: attachment; filename=\"budget_breakdown.csv\"\n");
    m.append("\n");
    m.append(csv.as_str());
    m.append("\n--multi-22222--\n");
    m
}

fn generate_email_with_eml_attachment() -> String {
    let mut nested = String::new();
    nested.append("From: nested@example.com\n");
    nested.append("To: recipient@example.com\n");
    nested.append("Subject: Forwarded: Important nested message\n");
    nested.append("Date: Mon, 4 Dec 2025 09:00:00 -0500\n");
    nested.append("Message-ID: <nested-inner-001@example.com>\n");
    nested.append("Content-Type: text/plain; charset=utf-8\n");
    nested.append("\n");
    nested.append("This is a forwarded email with important information.\n");
    nested.append("Keywords: patent application, intellectual property, trademark filing.\n");
    let eml = b64_std_encode(nested.as_str().as_bytes());
    let mut m = String::new();
    m.append("From MAILER-DAEMON Mon Dec 04 15:00:00 2025\n");
    m.append("From: laura@example.com\n");
    m.append("To: mike@example.com\n");
    m.append("Subject: FWD: Please review this forwarded email\n");
    m.append("Date: Mon, 4 Dec 2025 15:00:00 -0500\n");
    m.append("Message-ID: <eml-attachment-001@example.com>\n");
    m.append("MIME-Version: 1.0\n");
    m.append("Content-Type: multipart/mixed; boundary=\"eml-33333\"\n");
    m.append("\n");
    m.append("--eml-33333\n");
    m.append("Content-Type: text/plain; charset=utf-8\n");
    m.append("\n");
    m.append("Please review the attached forwarded email about the patent application.\n");
    m.append("Keywords: legal documentation, prior art search, patent claims.\n");
    m.append("\n");
    m.append("--eml-33333\n");
    m.append("Content-Type: message/rfc822; name=\"forwarded_message.eml\"\n");
    m.append("Content-Transfer-Encoding: base64\n");
    m.append("Content-Disposition: attachment; filename=\"forwarded_message.eml\"\n");
    m.append("\n");
    m.append(eml.as_str());
    m.append("\n--eml-33333--\n");
    m
}

fn generate_complex_nested_eml() -> String {
    let mut inner = String::new();
    inner.append("From: deepnest@example.com\n");
    inner.append("To: recipient@example.com\n");
    inner.append("Subject: Original email deep in the chain\n");
    inner.append("Date: Mon, 4 Dec 2025 08:00:00 -0500\n");
    inner.append("Message-ID: <deepnest-001@example.com>\n");
    inner.append("Content-Type: text/plain; charset=utf-8\n");
    inner.append("\n");
    inner.append("Keywords: source code repository, git commit history.\n");
    let eml = b64_std_encode(inner.as_str().as_bytes());
    let mut m = String::new();
    m.append("From MAILER-DAEMON Mon Dec 04 16:00:00 2025\n");
    m.append("From: nancy@example.com\n");
    m.append("To: oliver@example.com\n");
    m.append("Subject: FWD: FWD: Complex nested forwarding chain\n");
    m.append("Date: Mon, 4 Dec 2025 16:00:00 -0500\n");
    m.append("Message-ID: <complex-nested-001@example.com>\n");
    m.append("MIME-Version: 1.0\n");
    m.append("Content-Type: multipart/mixed; boundary=\"complex-55555\"\n");
    m.append("\n");
    m.append("--complex-55555\n");
    m.append("Content-Type: text/plain; charset=utf-8\n");
    m.append("\n");
    m.append("This email contains a forwarded email with its own attachments.\n");
    m.append("Keywords: software architecture, microservices design, API documentation.\n");
    m.append("\n");
    m.append("--complex-55555\n");
    m.append("Content-Type: message/rfc822; name=\"original_with_attachment.eml\"\n");
    m.append("Content-Transfer-Encoding: base64\n");
    m.append("Content-Disposition: attachment; filename=\"original_with_attachment.eml\"\n");
    m.append("\n");
    m.append(eml.as_str());
    m.append("\n--complex-55555--\n");
    m
}

/// Generates a complete MBOX image holding the seven fixture messages.
pub fn generate_comprehensive_mbox() -> String {
    let mut mbox = String::new();
    let m1 = generate_plain_text_email();
    mbox.append(m1.as_str());
    let m2 = generate_multipart_alternative_email();
    mbox.append(m2.as_str());
    let m3 = generate_email_with_pdf_attachment();
    mbox.append(m3.as_str());
    let m4 = generate_email_with_image_attachment();
    mbox.append(m4.as_str());
    let m5 = generate_email_with_multiple_attachments();
    mbox.append(m5.as_str());
    let m6 = generate_email_with_eml_attachment();
    mbox.append(m6.as_str());
    let m7 = generate_complex_nested_eml();
    mbox.append(m7.as_str());
    mbox
}

} // verus!
