//! Form bodies: URL-encoded forms and multipart forms.
use vstd::prelude::*;
use vstd::utf8::encode_utf8;
use crate::errors::{DeboaError, IoError};
use crate::text::string_of;

verus! {

/// The `indexmap` crate's insertion-ordered map.
#[verifier::external_type_specification]
#[verifier::external_body]
#[verifier::reject_recursive_types(K)]
#[verifier::reject_recursive_types(V)]
#[verifier::reject_recursive_types(S)]
pub struct ExIndexMap<K, V, S>(indexmap::IndexMap<K, V, S>);

/// What an ordered map of form fields holds: its (key, value) entries in order.
pub uninterp spec fn field_entries(m: indexmap::IndexMap<String, String>) -> Seq<(Seq<char>, Seq<char>)>;

/// The position of a key among entries (their length where it is absent).
pub open spec fn key_position(es: Seq<(Seq<char>, Seq<char>)>, k: Seq<char>, i: int) -> int
    decreases es.len() - i,
{
    if i < 0 || i >= es.len() || es[i].0 == k { i } else { key_position(es, k, i + 1) }
}

/// Entries after an insertion: an existing key keeps its place and takes the
/// new value; a new key goes last.
pub open spec fn insert_entry(es: Seq<(Seq<char>, Seq<char>)>, k: Seq<char>, v: Seq<char>) -> Seq<(Seq<char>, Seq<char>)> {
    let p = key_position(es, k, 0);
    if p < es.len() { es.update(p, (k, v)) } else { es.push((k, v)) }
}

/// No key occurs twice.
pub open spec fn keys_unique(es: Seq<(Seq<char>, Seq<char>)>) -> bool {
    forall|i: int, j: int| 0 <= i < j < es.len() ==> es[i].0 != es[j].0
}

/// `IndexMap::new`: no entries.
#[verifier::external_body]
fn fields_new() -> (r: indexmap::IndexMap<String, String>)
    ensures
        field_entries(r) == Seq::<(Seq<char>, Seq<char>)>::empty(),
{
    indexmap::IndexMap::new()
}

/// `IndexMap::insert`: an existing key keeps its place and takes the new
/// value; a new key is added last.
#[verifier::external_body]
fn fields_insert(m: &mut indexmap::IndexMap<String, String>, k: String, v: String)
    ensures
        field_entries(*final(m)) == insert_entry(field_entries(*old(m)), k@, v@),
{
    m.insert(k, v);
}

/// `IndexMap::iter`: the entries in order, copied out.
#[verifier::external_body]
fn fields_list(m: &indexmap::IndexMap<String, String>) -> (r: Vec<(String, String)>)
    ensures
        r@.len() == field_entries(*m).len(),
        forall|i: int| 0 <= i < r@.len() ==> (#[trigger] r@[i]).0@ == field_entries(*m)[i].0 && r@[i].1@ == field_entries(*m)[i].1,
{
    m.iter().map(|(k, v)| (k.clone(), v.clone())).collect()
}

pub proof fn lemma_key_position(es: Seq<(Seq<char>, Seq<char>)>, k: Seq<char>, i: int)
    requires
        0 <= i <= es.len(),
    ensures
        i <= key_position(es, k, i) <= es.len(),
        key_position(es, k, i) < es.len() ==> es[key_position(es, k, i)].0 == k,
        forall|j: int| i <= j < key_position(es, k, i) ==> es[j].0 != k,
    decreases es.len() - i,
{
    if i < es.len() && es[i].0 != k {
        lemma_key_position(es, k, i + 1);
    }
}

/// Inserting keeps keys unique.
pub proof fn lemma_insert_keeps_unique(es: Seq<(Seq<char>, Seq<char>)>, k: Seq<char>, v: Seq<char>)
    requires
        keys_unique(es),
    ensures
        keys_unique(insert_entry(es, k, v)),
{
    lemma_key_position(es, k, 0);
}

/// A byte that URL encoding leaves as it is: ASCII letters and digits, `-`, `.`, `_` and `~`.
pub open spec fn is_unreserved(b: u8) -> bool {
    (48 <= b && b <= 57) || (65 <= b && b <= 90) || (97 <= b && b <= 122) || b == 45 || b == 46 || b == 95 || b == 126
}

/// An upper-case hexadecimal digit.
pub open spec fn hex_digit(d: u8) -> u8 {
    if d < 10 { (48 + d) as u8 } else { (55 + d) as u8 }
}

/// URL encoding of bytes: unreserved bytes stay, every other byte becomes `%`
/// and two upper-case hexadecimal digits.
pub open spec fn percent_encode(s: Seq<u8>) -> Seq<u8>
    decreases s.len(),
{
    if s.len() == 0 {
        Seq::empty()
    } else {
        let b = s.last();
        percent_encode(s.drop_last()) + if is_unreserved(b) { seq![b] } else { seq![37u8, hex_digit(b / 16), hex_digit(b % 16)] }
    }
}

/// `urlencoding::encode`: percent-encodes every byte of the text's UTF-8 form
/// except ASCII letters, digits, `-`, `.`, `_` and `~`, with upper-case hex digits.
#[verifier::external_body]
fn url_encode(s: &str) -> (r: String)
    ensures
        encode_utf8(r@) == percent_encode(encode_utf8(s@)),
{
    urlencoding::encode(s).into_owned()
}

/// The bytes of one `key=value` pair of a URL-encoded form: the key as it is,
/// the value URL-encoded.
pub open spec fn pair_bytes(e: (Seq<char>, Seq<char>)) -> Seq<u8> {
    encode_utf8(e.0) + seq![61u8] + percent_encode(encode_utf8(e.1))
}

/// The body of a URL-encoded form: its pairs joined by `&`.
pub open spec fn encoded_body(es: Seq<(Seq<char>, Seq<char>)>) -> Seq<u8>
    decreases es.len(),
{
    if es.len() == 0 {
        Seq::empty()
    } else if es.len() == 1 {
        pair_bytes(es[0])
    } else {
        encoded_body(es.drop_last()) + seq![38u8] + pair_bytes(es.last())
    }
}

/// A URL-encoded form (`application/x-www-form-urlencoded`).
pub struct EncodedForm {
    fields: indexmap::IndexMap<String, String>,
}

impl EncodedForm {
    /// The form's fields, in the order they were first added.
    pub closed spec fn entries(&self) -> Seq<(Seq<char>, Seq<char>)> {
        field_entries(self.fields)
    }

    /// A form without fields.
    pub fn builder() -> (r: EncodedForm)
        ensures
            r.entries() == Seq::<(Seq<char>, Seq<char>)>::empty(),
            keys_unique(r.entries()),
    {
        EncodedForm { fields: fields_new() }
    }

    /// The body: `key=value` pairs in order, joined by `&`, values URL-encoded.
    pub fn build(self) -> (r: Vec<u8>)
        ensures
            r@ == encoded_body(self.entries()),
    {
        let es = fields_list(&self.fields);
        let ghost all = field_entries(self.fields);
        let mut out: Vec<u8> = Vec::new();
        let mut i: usize = 0;
        while i < es.len()
            invariant
                i <= es@.len(),
                es@.len() == all.len(),
                forall|j: int| 0 <= j < es@.len() ==> (#[trigger] es@[j]).0@ == all[j].0 && es@[j].1@ == all[j].1,
                out@ == encoded_body(all.take(i as int)),
            decreases es@.len() - i,
        {
            let ghost before = out@;
            if i > 0 {
                out.push(38u8);
            }
            let (k, v) = &es[i];
            out.extend_from_slice(k.as_str().as_bytes());
            out.push(61u8);
            let enc = url_encode(v.as_str());
            out.extend_from_slice(enc.as_str().as_bytes());
            proof {
                let t = all.take(i + 1);
                assert(t.drop_last() == all.take(i as int));
                assert(t.last() == all[i as int]);
                if i == 0 {
                    assert(t.len() == 1);
                }
            }
            i = i + 1;
        }
        assert(all.take(es@.len() as int) == all);
        out
    }
}


/// What every form offers: its content type, and setting a field.
pub trait DeboaForm: Sized {
    /// The form's fields, in the order they were first added.
    spec fn fields_of(&self) -> Seq<(Seq<char>, Seq<char>)>;

    /// The form's content type.
    spec fn content_type_of(&self) -> Seq<char>;

    /// The content type of the form.
    fn content_type(&self) -> (r: String)
        ensures
            r@ == self.content_type_of(),
    ;

    /// Sets a field: a new key goes last, an existing key takes the new value in its place.
    fn field(self, key: &str, value: &str) -> (r: Self)
        ensures
            r.fields_of() == insert_entry(self.fields_of(), key@, value@),
            r.content_type_of() == self.content_type_of(),
            keys_unique(self.fields_of()) ==> keys_unique(r.fields_of()),
    ;
}

/// The content type of a URL-encoded form.
pub open spec fn encoded_content_type() -> Seq<char> {
    "application/x-www-form-urlencoded"@
}

impl DeboaForm for EncodedForm {
    open spec fn fields_of(&self) -> Seq<(Seq<char>, Seq<char>)> {
        self.entries()
    }

    open spec fn content_type_of(&self) -> Seq<char> {
        encoded_content_type()
    }

    fn content_type(&self) -> (r: String) {
        String::from_str("application/x-www-form-urlencoded")
    }

    fn field(self, key: &str, value: &str) -> (r: EncodedForm) {
        proof {
            if keys_unique(self.entries()) {
                lemma_insert_keeps_unique(self.entries(), key@, value@);
            }
        }
        let mut fields = self.fields;
        fields_insert(&mut fields, String::from_str(key), String::from_str(value));
        EncodedForm { fields }
    }
}

} // verus!

verus! {

/// An ASCII letter or digit.
pub open spec fn is_alphanumeric(c: char) -> bool {
    ('0' <= c && c <= '9') || ('A' <= c && c <= 'Z') || ('a' <= c && c <= 'z')
}

/// `Alphanumeric.sample_string(&mut rand::rng(), len)`: `len` random ASCII letters and digits.
#[verifier::external_body]
fn random_alphanumeric(len: usize) -> (r: String)
    ensures
        r@.len() == len,
        forall|i: int| 0 <= i < r@.len() ==> is_alphanumeric(#[trigger] r@[i]),
{
    rand::distr::SampleString::sample_string(&rand::distr::Alphanumeric, &mut rand::rng(), len)
}

/// The content type that the `minimime` database gives a file name (by its extension).
pub uninterp spec fn mime_type_of(filename: Seq<char>) -> Option<Seq<char>>;

/// `minimime::lookup_by_filename`: the content type registered for the file
/// name's extension, if any.
#[verifier::external_body]
fn lookup_mime(filename: &str) -> (r: Option<String>)
    ensures
        r matches Some(t) ==> mime_type_of(filename@) == Some(t@),
        r is None ==> mime_type_of(filename@) is None,
{
    minimime::lookup_by_filename(filename).map(|info| info.content_type)
}

/// The last component of a path, as `Path::file_name` reads it.
pub uninterp spec fn path_file_name(p: Seq<char>) -> Option<Seq<char>>;

/// `Path::file_name`: the final component of the path, if there is one.
#[verifier::external_body]
fn file_name(p: &str) -> (r: Option<String>)
    ensures
        r matches Some(n) ==> path_file_name(p@) == Some(n@),
        r is None ==> path_file_name(p@) is None,
{
    std::path::Path::new(p).file_name().and_then(|n| n.to_str()).map(|n| n.to_string())
}

/// What a multipart field's value names on disk: not a file (the value is
/// sent as text), or a file with its contents (`None` where it could not be read).
pub enum FieldSource {
    Text,
    File(Option<Vec<u8>>),
}

/// `\r\n`
pub open spec fn crlf() -> Seq<u8> {
    seq![13u8, 10u8]
}

/// A text field: its disposition line, an empty line, the value.
pub open spec fn text_part(key: Seq<char>, value: Seq<char>) -> Seq<u8> {
    encode_utf8("Content-Disposition: form-data; name=\""@) + encode_utf8(key) + seq![34u8] + crlf() + crlf()
        + encode_utf8(value) + crlf()
}

/// A file field: its disposition line with the file name, its content type,
/// an empty line, the file's bytes.
pub open spec fn file_part(key: Seq<char>, name: Seq<char>, content_type: Seq<char>, content: Seq<u8>) -> Seq<u8> {
    encode_utf8("Content-Disposition: form-data; name=\""@) + encode_utf8(key) + encode_utf8("\"; filename=\""@)
        + encode_utf8(name) + seq![34u8] + crlf() + encode_utf8("Content-Type: "@) + encode_utf8(content_type)
        + crlf() + crlf() + content + crlf()
}

/// The part of one field; `None` where a file with a known content type could
/// not be read. A file whose content type is unknown, or whose path has no
/// file name, gives no part.
pub open spec fn field_part(key: Seq<char>, value: Seq<char>, src: FieldSource) -> Option<Seq<u8>> {
    match src {
        FieldSource::Text => Some(text_part(key, value)),
        FieldSource::File(c) => match mime_type_of(value) {
            None => Some(Seq::empty()),
            Some(ct) => match c {
                None => None,
                Some(bytes) => match path_file_name(value) {
                    None => Some(Seq::empty()),
                    Some(name) => Some(file_part(key, name, ct, bytes@)),
                },
            },
        },
    }
}

/// The delimiter after a field: `--boundary`, then `--\r\n` after the last field, `\r\n` otherwise.
pub open spec fn delimiter(boundary: Seq<char>, last: bool) -> Seq<u8> {
    seq![45u8, 45u8] + encode_utf8(boundary) + if last { seq![45u8, 45u8, 13u8, 10u8] } else { crlf() }
}

/// The first `k` fields of a multipart body, after the opening `--boundary\r\n`.
pub open spec fn multipart_upto(boundary: Seq<char>, es: Seq<(Seq<char>, Seq<char>)>, srcs: Seq<FieldSource>, k: int) -> Option<Seq<u8>>
    decreases k,
{
    if k <= 0 {
        Some(seq![45u8, 45u8] + encode_utf8(boundary) + crlf())
    } else {
        match (multipart_upto(boundary, es, srcs, k - 1), field_part(es[k - 1].0, es[k - 1].1, srcs[k - 1])) {
            (Some(acc), Some(p)) => Some(acc + p + delimiter(boundary, k == es.len())),
            _ => None,
        }
    }
}

/// Once a field fails, the body fails.
proof fn lemma_upto_stays_none(boundary: Seq<char>, es: Seq<(Seq<char>, Seq<char>)>, srcs: Seq<FieldSource>, k: int, n: int)
    requires
        1 <= k <= n,
        multipart_upto(boundary, es, srcs, k) is None,
    ensures
        multipart_upto(boundary, es, srcs, n) is None,
    decreases n - k,
{
    if k < n {
        lemma_upto_stays_none(boundary, es, srcs, k + 1, n);
    }
}

/// A multipart body.
pub open spec fn multipart_body(boundary: Seq<char>, es: Seq<(Seq<char>, Seq<char>)>, srcs: Seq<FieldSource>) -> Option<Seq<u8>> {
    multipart_upto(boundary, es, srcs, es.len() as int)
}

/// A multipart form (`multipart/form-data`).
pub struct MultiPartForm {
    fields: indexmap::IndexMap<String, String>,
    boundary: String,
}

/// The fixed start of every boundary.
pub open spec fn boundary_prefix() -> Seq<char> {
    "DeboaFormBdry"@
}

impl MultiPartForm {
    /// The form's fields, in the order they were first added.
    pub closed spec fn entries(&self) -> Seq<(Seq<char>, Seq<char>)> {
        field_entries(self.fields)
    }

    /// The form's boundary.
    pub closed spec fn boundary_view(&self) -> Seq<char> {
        self.boundary@
    }

    /// A form without fields, with a boundary made of a fixed prefix and ten
    /// random ASCII letters and digits.
    pub fn builder() -> (r: MultiPartForm)
        ensures
            r.entries() == Seq::<(Seq<char>, Seq<char>)>::empty(),
            keys_unique(r.entries()),
            r.boundary_view().len() == boundary_prefix().len() + 10,
            r.boundary_view().take(boundary_prefix().len() as int) == boundary_prefix(),
            forall|i: int| boundary_prefix().len() <= i < r.boundary_view().len() ==> is_alphanumeric(#[trigger] r.boundary_view()[i]),
    {
        let mut b = crate::text::chars_of("DeboaFormBdry");
        let ghost p = b@;
        let tail = random_alphanumeric(10);
        let tail_chars = crate::text::chars_of(tail.as_str());
        crate::text::push_chars(&mut b, tail_chars.as_slice());
        assert(b@.take(p.len() as int) == p);
        MultiPartForm { fields: fields_new(), boundary: string_of(b.as_slice()) }
    }

    /// Sets a field to a file path: a new key goes last, an existing key takes the path in its place.
    pub fn file(self, key: &str, path: &str) -> (r: MultiPartForm)
        ensures
            r.entries() == insert_entry(self.entries(), key@, path@),
            r.boundary_view() == self.boundary_view(),
            keys_unique(self.entries()) ==> keys_unique(r.entries()),
    {
        DeboaForm::field(self, key, path)
    }

    /// The fields, in order, as (key, value) pairs.
    pub fn fields(&self) -> (r: Vec<(String, String)>)
        ensures
            r@.len() == self.entries().len(),
            forall|i: int| 0 <= i < r@.len() ==> (#[trigger] r@[i]).0@ == self.entries()[i].0 && r@[i].1@ == self.entries()[i].1,
    {
        fields_list(&self.fields)
    }

    /// The boundary.
    pub fn boundary(&self) -> (r: String)
        ensures
            r@ == self.boundary_view(),
    {
        self.boundary.clone()
    }

    /// The body, given what each field's value names on disk (`sources[i]`
    /// for the `i`-th field): the opening `--boundary`, then each field's part
    /// and delimiter. Fails where a file with a known content type could not be read.
    pub fn build_from(self, sources: &Vec<FieldSource>) -> (r: Result<Vec<u8>, DeboaError>)
        requires
            sources@.len() == self.entries().len(),
        ensures
            match multipart_body(self.boundary_view(), self.entries(), sources@) {
                Some(b) => r matches Ok(v) && v@ == b,
                None => r matches Err(DeboaError::Io(IoError::File { message })) && message@ == "Failed to read file"@,
            },
    {
        let es = fields_list(&self.fields);
        let ghost all = field_entries(self.fields);
        let bnd = self.boundary.as_str().as_bytes();
        let mut out: Vec<u8> = Vec::new();
        out.push(45u8);
        out.push(45u8);
        out.extend_from_slice(bnd);
        out.push(13u8);
        out.push(10u8);
        let n = es.len();
        let mut i: usize = 0;
        while i < n
            invariant
                n == es@.len(),
                i <= n,
                n == all.len(),
                all == self.entries(),
                sources@.len() == n,
                bnd@ == encode_utf8(self.boundary_view()),
                forall|j: int| 0 <= j < es@.len() ==> (#[trigger] es@[j]).0@ == all[j].0 && es@[j].1@ == all[j].1,
                multipart_upto(self.boundary_view(), all, sources@, i as int) == Some(out@),
            decreases n - i,
        {
            let (k, v) = &es[i];
            let part = match part_bytes(k.as_str(), v.as_str(), &sources[i]) {
                Some(p) => p,
                None => {
                    proof {
                        lemma_upto_stays_none(self.boundary_view(), all, sources@, i + 1, n as int);
                    }
                    return Err(DeboaError::Io(IoError::File { message: String::from_str("Failed to read file") }));
                },
            };
            out.extend_from_slice(part.as_slice());
            out.push(45u8);
            out.push(45u8);
            out.extend_from_slice(bnd);
            if i + 1 == n {
                out.push(45u8);
                out.push(45u8);
                out.push(13u8);
                out.push(10u8);
            } else {
                out.push(13u8);
                out.push(10u8);
            }
            i = i + 1;
        }
        Ok(out)
    }
}

/// The content type of a multipart form with the given boundary.
pub open spec fn multipart_content_type(boundary: Seq<char>) -> Seq<char> {
    "multipart/form-data; boundary="@ + boundary
}

impl DeboaForm for MultiPartForm {
    open spec fn fields_of(&self) -> Seq<(Seq<char>, Seq<char>)> {
        self.entries()
    }

    open spec fn content_type_of(&self) -> Seq<char> {
        multipart_content_type(self.boundary_view())
    }

    fn content_type(&self) -> (r: String) {
        let mut c = crate::text::chars_of("multipart/form-data; boundary=");
        let b = crate::text::chars_of(self.boundary.as_str());
        crate::text::push_chars(&mut c, b.as_slice());
        string_of(c.as_slice())
    }

    fn field(self, key: &str, value: &str) -> (r: MultiPartForm)
        ensures
            r.boundary_view() == self.boundary_view(),
    {
        proof {
            if keys_unique(self.entries()) {
                lemma_insert_keeps_unique(self.entries(), key@, value@);
            }
        }
        let mut fields = self.fields;
        fields_insert(&mut fields, String::from_str(key), String::from_str(value));
        MultiPartForm { fields, boundary: self.boundary }
    }
}

/// A form of either kind.
pub enum Form {
    EncodedForm(EncodedForm),
    MultiPartForm(MultiPartForm),
}

impl From<EncodedForm> for Form {
    fn from(val: EncodedForm) -> (r: Form) {
        Form::EncodedForm(val)
    }
}

impl vstd::std_specs::convert::FromSpecImpl<EncodedForm> for Form {
    open spec fn obeys_from_spec() -> bool {
        true
    }

    open spec fn from_spec(v: EncodedForm) -> Form {
        Form::EncodedForm(v)
    }
}

impl From<MultiPartForm> for Form {
    fn from(val: MultiPartForm) -> (r: Form) {
        Form::MultiPartForm(val)
    }
}

impl vstd::std_specs::convert::FromSpecImpl<MultiPartForm> for Form {
    open spec fn obeys_from_spec() -> bool {
        true
    }

    open spec fn from_spec(v: MultiPartForm) -> Form {
        Form::MultiPartForm(v)
    }
}

fn part_bytes(key: &str, value: &str, src: &FieldSource) -> (r: Option<Vec<u8>>)
    ensures
        match field_part(key@, value@, *src) {
            Some(p) => r matches Some(v) && v@ == p,
            None => r is None,
        },
{
    match src {
        FieldSource::Text => {
            let mut out: Vec<u8> = Vec::new();
            out.extend_from_slice("Content-Disposition: form-data; name=\"".as_bytes());
            out.extend_from_slice(key.as_bytes());
            out.push(34u8);
            out.push(13u8);
            out.push(10u8);
            out.push(13u8);
            out.push(10u8);
            out.extend_from_slice(value.as_bytes());
            out.push(13u8);
            out.push(10u8);
            Some(out)
        },
        FieldSource::File(content) => {
            match lookup_mime(value) {
                None => Some(Vec::new()),
                Some(ct) => match content {
                    None => None,
                    Some(bytes) => match file_name(value) {
                        None => Some(Vec::new()),
                        Some(name) => {
                            let mut out: Vec<u8> = Vec::new();
                            out.extend_from_slice("Content-Disposition: form-data; name=\"".as_bytes());
                            out.extend_from_slice(key.as_bytes());
                            out.extend_from_slice("\"; filename=\"".as_bytes());
                            out.extend_from_slice(name.as_str().as_bytes());
                            out.push(34u8);
                            out.push(13u8);
                            out.push(10u8);
                            out.extend_from_slice("Content-Type: ".as_bytes());
                            out.extend_from_slice(ct.as_str().as_bytes());
                            out.push(13u8);
                            out.push(10u8);
                            out.push(13u8);
                            out.push(10u8);
                            out.extend_from_slice(bytes.as_slice());
                            out.push(13u8);
                            out.push(10u8);
                            Some(out)
                        },
                    },
                },
            }
        },
    }
}

} // verus!
