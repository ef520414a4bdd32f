use novel_fetch::encoding::{decode_query, encode_query};
use novel_fetch::extract::{chapter_body, extract_content, parse_node_list, parse_search_page};
use novel_fetch::progress::progress_hundredths;

const START: &str = "<script>loadAdv(2,0);</script>";
const END: &str = "<script>loadAdv(3,0);</script>";

fn results_page() -> String {
    let mut page = String::new();
    page.push_str("<html><body><ul class=\"list\">\n");
    page.push_str("<li><a target=\"_blank\" href=\"https://www.69shuba.com/book/12345.htm\" class=\"imgbox\"><img src=\"c.jpg\"></a>\n");
    page.push_str("<div class=\"newnav\"><h3><a target=\"_blank\" href=\"https://www.69shuba.com/book/12345.htm\"><span class=\"hottext\">Example</span> Novel</a></h3>\n");
    page.push_str("<div class=\"labelbox\">\n<label><span class=\"hottext\">Jane</span> Doe</label><label>fantasy</label></div></div></li>\n");
    page.push_str("<li><a target=\"_blank\" href=\"https://www.69shuba.com/book/999.htm\" class=\"imgbox\"><img src=\"d.jpg\"></a>\n");
    page.push_str("<h3><a target=\"_blank\" href=\"https://www.69shuba.com/book/999.htm\">Other Novel</a></h3>\n");
    page.push_str("<div class=\"labelbox\"><label>Someone Else</label></div></li>\n");
    page.push_str("</ul></body></html>");
    page
}

fn listing_page() -> String {
    let mut page = String::new();
    page.push_str("<div id=\"catalog\"><ul>\n");
    page.push_str("<li data-num=\"1\"><a href=\"https://www.69shuba.com/txt/12345/1001\">Chapter 1</a></li>\n");
    page.push_str("<li data-num=\"2\"><a href=\"https://www.69shuba.com/txt/12345/1002\">Chapter 2</a></li>\n");
    page.push_str("<li data-num=\"x\"><a href=\"https://www.69shuba.com/txt/12345/9999\">Bad number</a></li>\n");
    page.push_str("<li data-num=\"7\"><a href=\"https://other.example/txt/1\">Other host</a></li>\n");
    page.push_str("<li data-num=\"3\"><a href=\"https://www.69shuba.com/txt/12345/1003\">Chapter 3</a></li>\n");
    page.push_str("</ul></div>");
    page
}

fn chapter_page(body: &str) -> String {
    format!("<html><div class=\"txtnav\"><h1>t</h1>{}{}{}</div></html>", START, body, END)
}

fn gbk(s: &str) -> Vec<u8> {
    encoding_rs::GBK.encode(s).0.into_owned()
}

#[test]
fn encode_query_ascii() {
    assert_eq!(encode_query("abc"), "%61%62%63");
    assert_eq!(encode_query(""), "");
    assert_eq!(encode_query("a b"), "%61%20%62");
}

#[test]
fn encode_query_uses_gbk() {
    assert_eq!(encode_query("你好"), "%C4%E3%BA%C3");
}

#[test]
fn encode_query_shape() {
    for q in ["Example Novel", "你好 world", "", "%%", "斗破苍穹", "zZ09~!"] {
        let e = encode_query(q);
        assert_eq!(e.len() % 3, 0);
        assert!(e.chars().all(|c| c == '%' || c.is_ascii_digit() || ('A'..='F').contains(&c)));
    }
}

#[test]
fn decode_query_round_trip() {
    assert_eq!(decode_query(&encode_query("你好")), Some(vec![0xC4, 0xE3, 0xBA, 0xC3]));
    assert_eq!(decode_query(&encode_query("Novel")), Some(b"Novel".to_vec()));
    assert_eq!(decode_query(""), Some(vec![]));
    assert_eq!(decode_query("%FF%00"), Some(vec![0xFF, 0x00]));
}

#[test]
fn decode_query_rejects_malformed() {
    assert_eq!(decode_query("%4"), None);
    assert_eq!(decode_query("%G1"), None);
    assert_eq!(decode_query("%4a"), None);
    assert_eq!(decode_query("x41"), None);
}

#[test]
fn encoded_query_decodes_to_query_text() {
    let q = "斗破苍穹";
    let bytes = decode_query(&encode_query(q)).unwrap();
    let page = [START.as_bytes(), &bytes[..], END.as_bytes()].concat();
    assert_eq!(extract_content(&page), q);
}

#[test]
fn search_page_without_record() {
    let r = parse_search_page("<html><body><p>nothing found</p></body></html>");
    assert_eq!(r.title, "");
    assert_eq!(r.author, "");
    assert_eq!(r.document_location, "");
    assert!(!r.is_found());
    let r = parse_search_page("<ul><li>no anchor here</li></ul>");
    assert_eq!(r.title, "");
    assert_eq!(r.document_location, "");
}

#[test]
fn search_page_first_record() {
    let r = parse_search_page(&results_page());
    assert_eq!(r.title, "Example Novel");
    assert_eq!(r.author, "Jane Doe");
    assert_eq!(r.document_location, "https://cooolr.online/book/12345/");
    assert!(r.is_found());
}

#[test]
fn search_page_fields_independent() {
    let page = "<li><a target=x><img src=y><h3><a target=\"_blank\" href=\"u\">Only Title</a></h3></li>";
    let r = parse_search_page(page);
    assert_eq!(r.title, "Only Title");
    assert_eq!(r.author, "");
    assert_eq!(r.document_location, "");
}

#[test]
fn node_list_in_order_on_mirror() {
    let links = parse_node_list(&listing_page());
    assert_eq!(
        links,
        vec![
            "https://cooolr.online/txt/12345/1001".to_string(),
            "https://cooolr.online/txt/12345/1002".to_string(),
            "https://cooolr.online/txt/12345/1003".to_string(),
        ]
    );
}

#[test]
fn node_list_empty_page() {
    assert!(parse_node_list("<html>table missing</html>").is_empty());
    assert!(parse_node_list("").is_empty());
}

#[test]
fn chapter_cleanup() {
    let body = "&emsp;&emsp;First line.<br />\r\n&nbsp;Second<br>line.<div class=\"bottom-ad\">ad</div>(本章完)";
    assert_eq!(chapter_body(&chapter_page(body)), "    First line.\n Secondline.ad");
}

#[test]
fn chapter_missing_marker() {
    assert_eq!(chapter_body(&format!("{}text without end", START)), "");
    assert_eq!(chapter_body(&format!("text without start{}", END)), "");
    assert_eq!(chapter_body(&format!("{}reversed{}", END, START)), "");
    assert_eq!(extract_content(b"plain"), "");
}

#[test]
fn chapter_first_end_marker() {
    let page = format!("a{}one{}two{}", START, END, END);
    assert_eq!(chapter_body(&page), "one");
}

#[test]
fn chapter_bytes_are_gbk() {
    let page = gbk(&chapter_page("第一章&nbsp;开始(本章完)"));
    assert_eq!(extract_content(&page), "第一章 开始");
}

#[test]
fn progress_values() {
    assert_eq!(progress_hundredths(0, 3), 3333);
    assert_eq!(progress_hundredths(1, 3), 6667);
    assert_eq!(progress_hundredths(2, 3), 10000);
    assert_eq!(progress_hundredths(0, 1), 10000);
    assert_eq!(progress_hundredths(0, 8), 1250);
    assert_eq!(progress_hundredths(0, 6), 1667);
}

#[test]
fn end_to_end_download() {
    assert_eq!(encode_query("Example Novel"), "%45%78%61%6D%70%6C%65%20%4E%6F%76%65%6C");
    let found = parse_search_page(&results_page());
    assert_eq!(found.title, "Example Novel");
    assert_eq!(found.author, "Jane Doe");
    let links = parse_node_list(&listing_page());
    assert_eq!(links.len(), 3);
    let pages = [
        ("https://cooolr.online/txt/12345/1001", "Body one.<br />"),
        ("https://cooolr.online/txt/12345/1002", "Body two.&nbsp;"),
        ("https://cooolr.online/txt/12345/1003", "Body three.(本章完)"),
    ];
    let mut output = String::new();
    let mut reports = Vec::new();
    for (index, url) in links.iter().enumerate() {
        let raw = pages.iter().find(|(u, _)| u == url).unwrap().1;
        output.push_str(&extract_content(&gbk(&chapter_page(raw))));
        let p = progress_hundredths(index, links.len());
        reports.push(format!("{}.{:02}%", p / 100, p % 100));
    }
    assert_eq!(output, "Body one.Body two. Body three.");
    assert_eq!(reports, vec!["33.33%", "66.67%", "100.00%"]);
}

#[test]
fn search_page_fields_stay_on_one_line() {
    let page = "<li><a target=x><img src=y>\n<h3><a target=\"_blank\" href=\"a\nb\">Wrong</a></h3>\n<h3><a target=\"_blank\" href=\"c\">Right</a></h3>\n<div class=\"labelbox\"><label>broken\nname</label><label>Right Author</label></div></li>";
    let r = parse_search_page(page);
    assert_eq!(r.title, "Right");
    assert_eq!(r.author, "Right Author");
    assert_eq!(r.document_location, "");
}

#[test]
fn node_list_skips_entry_across_lines() {
    let mut page = String::new();
    page.push_str("<li data-num=\"4\"><a href=\"https://www.69shuba.com/txt/1/4\">Line\nbreak</a></li>\n");
    page.push_str("<li data-num=\"5\"><a href=\"https://www.69shuba.com/txt/1/5\">Five</a></li>");
    assert_eq!(parse_node_list(&page), vec!["https://cooolr.online/txt/1/5".to_string()]);
}
