//! The calls this library makes into std and into outside crates, each with
//! the contract that the rest of the library relies on.

use vstd::prelude::*;

verus! {

/// `String::from_iter` over characters: the string made of `v`'s characters, in order.
#[verifier::external_body]
pub fn string_of(v: &Vec<char>) -> (s: String)
    ensures
        s@ == v@,
{
    v.iter().collect()
}

/// What `str::to_lowercase` returns for a string (Unicode lowercase mapping).
pub uninterp spec fn lowercased(s: Seq<char>) -> Seq<char>;

/// `str::to_lowercase` as far as it is stated here: on a text made of ASCII
/// characters and characters without case, `A`-`Z` lowercased and every
/// other character kept; on any other text, the name.
pub open spec fn lower_text(s: Seq<char>) -> Seq<char> {
    if crate::text::is_case_known(s) {
        crate::text::ascii_lowered(s)
    } else {
        lowercased(s)
    }
}

/// `str::to_lowercase`. The contract names the result and states it for
/// texts made of ASCII characters and characters without case (see
/// `case_known`): each character is mapped by `char::to_lowercase`, which
/// turns `A`-`Z` into `a`-`z` and gives a character without a lowercase
/// mapping back as it is; the one context rule (final sigma) concerns `Σ`,
/// which such texts do not hold. The rest of the Unicode mapping is not
/// restated here.
#[verifier::external_body]
pub fn to_lowercase(s: &str) -> (r: String)
    ensures
        r@ == lowercased(s@),
        r@ == lower_text(s@),
{
    s.to_lowercase()
}

/// Whether the `regex` crate's Unicode class `\d` (`\p{Nd}`) holds of `c`.
pub uninterp spec fn regex_digit(c: char) -> bool;

/// Whether the `regex` crate's Unicode class `\w` holds of `c`.
pub uninterp spec fn regex_word(c: char) -> bool;

/// The class `\d` as far as it is stated here: on ASCII exactly the ten
/// digits (the ASCII part of `\p{Nd}`), elsewhere the crate's answer.
pub open spec fn decimal_digit(c: char) -> bool {
    if (c as int) < 0x80 {
        '0' <= c && c <= '9'
    } else {
        regex_digit(c)
    }
}

/// The class `\w` as far as it is stated here: on ASCII exactly the letters,
/// digits and `_`, elsewhere the crate's answer.
pub open spec fn word_char(c: char) -> bool {
    if (c as int) < 0x80 {
        ('0' <= c && c <= '9') || ('a' <= c && c <= 'z') || ('A' <= c && c <= 'Z') || c == '_'
    } else {
        regex_word(c)
    }
}

/// `regex::Regex::is_match` with the pattern `\A\d\z` on the one-character
/// string `c`. Of the result the contract states the name and the ASCII part
/// of `\p{Nd}` (exactly the ten ASCII digits), which the crate documents.
#[verifier::external_body]
pub fn is_regex_digit(c: char) -> (r: bool)
    ensures
        r == regex_digit(c),
        r == decimal_digit(c),
{
    let mut buf = [0u8; 4];
    regex::Regex::new(r"\A\d\z").unwrap().is_match(c.encode_utf8(&mut buf))
}

/// `regex::Regex::is_match` with the pattern `\A\w\z` on the one-character
/// string `c`. Besides the name, the contract states the ASCII part of the
/// class: ASCII letters, digits and `_`.
#[verifier::external_body]
pub fn is_regex_word(c: char) -> (r: bool)
    ensures
        r == regex_word(c),
        r == word_char(c),
{
    let mut buf = [0u8; 4];
    regex::Regex::new(r"\A\w\z").unwrap().is_match(c.encode_utf8(&mut buf))
}

} // verus!

verus! {

/// The bytes that `urlencoding::encode` leaves as they are.
pub open spec fn url_safe(b: u8) -> bool {
    ||| 0x30 <= b <= 0x39
    ||| 0x41 <= b <= 0x5a
    ||| 0x61 <= b <= 0x7a
    ||| b == 0x2d
    ||| b == 0x2e
    ||| b == 0x5f
    ||| b == 0x7e
}

/// An uppercase hexadecimal digit.
pub open spec fn hex_char(n: int) -> char {
    if n < 10 {
        (0x30 + n) as char
    } else {
        (0x41 + n - 10) as char
    }
}

/// Percent-encoding of `bytes`: a safe byte as its character, any other byte
/// as `%` and two uppercase hexadecimal digits.
pub open spec fn percent_encoded(bytes: Seq<u8>) -> Seq<char>
    decreases bytes.len(),
{
    if bytes.len() == 0 {
        seq![]
    } else {
        let b = bytes.last();
        percent_encoded(bytes.drop_last()) + if url_safe(b) {
            seq![b as char]
        } else {
            seq!['%', hex_char(b as int / 16), hex_char(b as int % 16)]
        }
    }
}

/// `urlencoding::encode`: percent-encodes every byte of the UTF-8 form of
/// `s` except ASCII letters, digits and `-._~` (the crate's documented
/// behaviour, with uppercase hexadecimal digits as its source writes them).
#[verifier::external_body]
pub fn url_encode(s: &str) -> (r: String)
    ensures
        r@ == percent_encoded(vstd::utf8::encode_utf8(s@)),
{
    urlencoding::encode(s).into_owned()
}

/// What `serde_json` reads as the string at `[app_id]["data"]["name"]` of the
/// JSON text `text`, if the text parses and that path holds a string.
pub uninterp spec fn app_name_in_details(text: Seq<char>, app_id: Seq<char>) -> Option<Seq<char>>;

pub open spec fn opt_text(r: Option<String>) -> Option<Seq<char>> {
    match r {
        Some(s) => Some(s@),
        None => None,
    }
}

/// `serde_json::from_str` into a `Value`, then `get(app_id)`, `get("data")`,
/// `get("name")` and `as_str`. The contract names the result.
#[verifier::external_body]
pub fn json_app_name(text: &str, app_id: &str) -> (r: Option<String>)
    ensures
        opt_text(r) == app_name_in_details(text@, app_id@),
{
    serde_json::from_str::<serde_json::Value>(text).ok().and_then(
        |json| json.get(app_id).and_then(|v| v.get("data")).and_then(|v| v.get("name")).and_then(
            |v| v.as_str(),
        ).map(|s| s.to_string()),
    )
}

} // verus!

verus! {

/// What `html_escape::decode_html_entities` returns for a text.
pub uninterp spec fn html_decoded(s: Seq<char>) -> Seq<char>;

/// `html_escape::decode_html_entities`: named and numeric character
/// references decoded. The contract names the result, and states that a
/// text without `&` comes back as it is (the crate returns it borrowed when
/// it finds no entity, and every entity starts with `&`).
#[verifier::external_body]
pub fn decode_html_entities(s: &str) -> (r: String)
    ensures
        r@ == html_decoded(s@),
        !s@.contains('&') ==> r@ == s@,
{
    html_escape::decode_html_entities(s).into_owned()
}

} // verus!

verus! {

/// `std::str::from_utf8`: the text that `bytes` encode where they are valid
/// UTF-8 (as std documents it), `None` where they are not.
#[verifier::external_body]
pub fn utf8_text(bytes: &[u8]) -> (r: Option<String>)
    ensures
        r is Some <==> vstd::utf8::valid_utf8(bytes@),
        r matches Some(s) ==> s@ == vstd::utf8::decode_utf8(bytes@),
{
    std::str::from_utf8(bytes).ok().map(|s| s.to_string())
}

/// What `encoding_rs::GBK.decode` returns for `bytes` (with its BOM
/// sniffing and replacement of malformed sequences).
pub uninterp spec fn gbk_decoded(bytes: Seq<u8>) -> Seq<char>;

/// `encoding_rs::GBK.decode`: the text that `bytes` encode in GBK. The
/// contract names the result. The crate panics where its output size does
/// not fit a `usize`, which the bound on the length rules out.
#[verifier::external_body]
pub fn gbk_decode(bytes: &[u8]) -> (r: String)
    requires
        bytes@.len() <= usize::MAX / 4,
    ensures
        r@ == gbk_decoded(bytes@),
{
    encoding_rs::GBK.decode(bytes).0.into_owned()
}

/// What the `csv` crate reads from `text` without a header row and with
/// records of equal length: the fields of each record, or the message of
/// the first error.
pub uninterp spec fn csv_parsed(text: Seq<char>) -> Result<Seq<Seq<Seq<char>>>, Seq<char>>;

pub open spec fn records_view(r: Result<Vec<Vec<String>>, String>) -> Result<Seq<Seq<Seq<char>>>, Seq<char>> {
    match r {
        Ok(rows) => Ok(rows@.map_values(|row: Vec<String>| row@.map_values(|f: String| f@))),
        Err(e) => Err(e@),
    }
}

/// `csv::ReaderBuilder` with `has_headers(false)` over the bytes of `text`,
/// its records collected. The contract names the result.
#[verifier::external_body]
pub fn csv_records(text: &str) -> (r: Result<Vec<Vec<String>>, String>)
    ensures
        records_view(r) == csv_parsed(text@),
{
    let mut reader = csv::ReaderBuilder::new().has_headers(false).from_reader(text.as_bytes());
    reader.records().map(|rec| rec.map(|rec| rec.iter().map(|f| f.to_string()).collect())).collect::<
        Result<Vec<Vec<String>>, csv::Error>,
    >().map_err(|e| e.to_string())
}

/// What the `zip` crate gives for the entry `name` of the archive `archive`:
/// an error message where the archive cannot be opened or the entry cannot
/// be read as UTF-8 text, `None` where the entry cannot be had by name, and
/// the entry's text otherwise.
pub uninterp spec fn zip_entry_text(archive: Seq<u8>, name: Seq<char>) -> Result<Option<Seq<char>>, Seq<char>>;

pub open spec fn entry_view(r: Result<Option<String>, String>) -> Result<Option<Seq<char>>, Seq<char>> {
    match r {
        Ok(Some(s)) => Ok(Some(s@)),
        Ok(None) => Ok(None),
        Err(e) => Err(e@),
    }
}

/// `zip::ZipArchive::new`, `by_name` and `read_to_string` for one entry.
/// The contract names the result.
#[verifier::external_body]
pub fn zip_entry(archive: &[u8], name: &str) -> (r: Result<Option<String>, String>)
    ensures
        entry_view(r) == zip_entry_text(archive@, name@),
{
    let mut zip = zip::ZipArchive::new(std::io::Cursor::new(archive)).map_err(|e| e.to_string())?;
    let result = match zip.by_name(name) {
        Ok(mut file) => {
            let mut text = String::new();
            std::io::Read::read_to_string(&mut file, &mut text).map(|_| Some(text)).map_err(
                |e| e.to_string(),
            )
        },
        Err(_) => Ok(None),
    };
    result
}

} // verus!

verus! {

/// What the `csv` crate writes for `rows` (with its default settings:
/// comma-separated, quoting where needed, `\n` line ends), or its error's
/// message.
pub uninterp spec fn csv_written(rows: Seq<Seq<Seq<char>>>) -> Result<Seq<u8>, Seq<char>>;

pub open spec fn rows_view(rows: Seq<Vec<String>>) -> Seq<Seq<Seq<char>>> {
    rows.map_values(|row: Vec<String>| row@.map_values(|f: String| f@))
}

pub open spec fn bytes_view(r: Result<Vec<u8>, String>) -> Result<Seq<u8>, Seq<char>> {
    match r {
        Ok(b) => Ok(b@),
        Err(e) => Err(e@),
    }
}

/// All rows have the same number of fields.
pub open spec fn equal_widths(rows: Seq<Seq<Seq<char>>>) -> bool {
    forall|i: int, j: int| 0 <= i < rows.len() && 0 <= j < rows.len() ==> (#[trigger] rows[i]).len() == (#[trigger] rows[j]).len()
}

/// `csv::Writer::from_writer` over a `Vec<u8>`, `write_record` for each row,
/// then `into_inner`. The contract names the result, and states that rows
/// of equal width are written without error: the writer's only errors are
/// a row whose width differs from the first row's (it is not `flexible` by
/// default) and errors of the underlying writer, which a `Vec<u8>` never gives.
#[verifier::external_body]
pub fn csv_encode(rows: &Vec<Vec<String>>) -> (r: Result<Vec<u8>, String>)
    ensures
        bytes_view(r) == csv_written(rows_view(rows@)),
        equal_widths(rows_view(rows@)) ==> r is Ok,
{
    let mut writer = csv::Writer::from_writer(vec![]);
    for row in rows {
        writer.write_record(row).map_err(|e| e.to_string())?;
    }
    writer.into_inner().map_err(|e| e.to_string())
}

} // verus!

verus! {

/// `std::path::Path::file_name`, as text. The answer depends on the
/// platform's path rules; the contract states it for paths that the Unix
/// and Windows rules read alike (as the `std::path` documentation describes
/// components: repeated separators and `.` pieces skipped, `None` where the
/// path ends in `..` or has no name) and leaves it unsaid for other paths.
#[verifier::external_body]
pub fn path_file_name(path: &str) -> (r: Option<String>)
    ensures
        crate::paths::plain_path(path@) ==> opt_text(r) == crate::paths::file_name(path@),
{
    std::path::Path::new(path).file_name().map(|n| n.to_string_lossy().into_owned())
}

/// `std::path::Path::join`, as text. For a plain directory and a plain
/// relative name the contract states the result up to the separator that
/// the platform inserts (`/` on Unix, `\\` on Windows, as
/// `std::path::MAIN_SEPARATOR` documents); for other paths it is unsaid.
#[verifier::external_body]
pub fn path_join(dir: &str, name: &str) -> (r: String)
    ensures
        crate::paths::plain_path(dir@) && crate::paths::plain_name(name@) ==> (r@
            == crate::paths::joined(dir@, name@, '/') || r@ == crate::paths::joined(
            dir@,
            name@,
            '\\',
        )),
{
    std::path::Path::new(dir).join(name).to_string_lossy().into_owned()
}

} // verus!
