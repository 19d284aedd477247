use vstd::prelude::*;

verus! {

/// One search site: whether it is on, the keyword that triggers it, its label,
/// its URL template, and whether the query is sent as UTF-8.
#[derive(Debug, Clone)]
pub struct CustomSite {
    pub enabled: bool,
    pub keyword: String,
    pub text: String,
    pub url: String,
    pub utf8: bool,
}

/// The value of a `CustomSite`, with its strings as sequences of characters.
pub struct SiteValue {
    pub enabled: bool,
    pub keyword: Seq<char>,
    pub text: Seq<char>,
    pub url: Seq<char>,
    pub utf8: bool,
}

/// A keyed site: the value of one entry of the document, or of one flat row.
pub type Entry = (Seq<char>, SiteValue);

impl View for CustomSite {
    type V = SiteValue;

    open spec fn view(&self) -> SiteValue {
        SiteValue {
            enabled: self.enabled,
            keyword: self.keyword@,
            text: self.text@,
            url: self.url@,
            utf8: self.utf8,
        }
    }
}

/// A site together with the key it is stored under: one row of the table.
#[derive(Debug, Clone)]
pub struct CsvLine {
    pub key: String,
    pub enabled: bool,
    pub keyword: String,
    pub text: String,
    pub url: String,
    pub utf8: bool,
}

impl View for CsvLine {
    type V = Entry;

    open spec fn view(&self) -> Entry {
        (
            self.key@,
            SiteValue {
                enabled: self.enabled,
                keyword: self.keyword@,
                text: self.text@,
                url: self.url@,
                utf8: self.utf8,
            },
        )
    }
}

/// The entries of a sequence of rows, in order.
pub open spec fn lines_view(s: Seq<CsvLine>) -> Seq<Entry> {
    s.map_values(|l: CsvLine| l@)
}

impl CsvLine {
    /// The row that holds `site` under `key`.
    pub fn from_entry(key: &String, site: &CustomSite) -> (r: CsvLine)
        ensures
            r@ == (key@, site@),
    {
        CsvLine {
            key: key.clone(),
            enabled: site.enabled,
            keyword: site.keyword.clone(),
            text: site.text.clone(),
            url: site.url.clone(),
            utf8: site.utf8,
        }
    }

    /// The key of this row and its site, as separate values.
    pub fn to_entry(&self) -> (r: (String, CustomSite))
        ensures
            (r.0@, r.1@) == self@,
    {
        (
            self.key.clone(),
            CustomSite {
                enabled: self.enabled,
                keyword: self.keyword.clone(),
                text: self.text.clone(),
                url: self.url.clone(),
                utf8: self.utf8,
            },
        )
    }
}

} // verus!
