//! One purchased release as its detail page describes it: metadata, the
//! single-track/multi-track distinction, and the mapping from audio format to
//! download URL.

use vstd::prelude::*;
use crate::util::{fs_safe_seq, i32_to_string, int_str, push_char, str_eq};

verus! {

/// One downloadable rendition of a release.
pub struct DigitalItemDownload {
    /// The concrete download URL for this audio format.
    pub url: String,
}

impl View for DigitalItemDownload {
    type V = Seq<char>;

    open spec fn view(&self) -> Seq<char> {
        self.url@
    }
}

impl DeepView for DigitalItemDownload {
    type V = Seq<char>;

    open spec fn deep_view(&self) -> Seq<char> {
        self.view()
    }
}

/// One purchased release, as resolved from its detail page.
pub struct DigitalItem {
    /// Audio format name to download, or nothing when the release has no
    /// purchasable downloads.
    pub downloads: Option<Vec<(String, DigitalItemDownload)>>,
    /// The release date, in the service's textual date format.
    pub package_release_date: Option<String>,
    /// The release's name.
    pub title: String,
    /// The band or artist who released it.
    pub artist: String,
    /// A kind tag; `t` marks a single track.
    pub download_type: Option<String>,
    /// A kind name; `track` marks a single track.
    pub download_type_str: String,
    /// The item's own kind name; `track` marks a single track.
    pub item_type: String,
}

/// What [`DigitalItem`] denotes.
pub struct DigitalItemView {
    pub downloads: Option<Seq<(Seq<char>, Seq<char>)>>,
    pub package_release_date: Option<Seq<char>>,
    pub title: Seq<char>,
    pub artist: Seq<char>,
    pub download_type: Option<Seq<char>>,
    pub download_type_str: Seq<char>,
    pub item_type: Seq<char>,
}

impl View for DigitalItem {
    type V = DigitalItemView;

    open spec fn view(&self) -> DigitalItemView {
        DigitalItemView {
            downloads: match self.downloads {
                Some(d) => Some(d.deep_view()),
                None => None,
            },
            package_release_date: match self.package_release_date {
                Some(d) => Some(d@),
                None => None,
            },
            title: self.title@,
            artist: self.artist@,
            download_type: match self.download_type {
                Some(t) => Some(t@),
                None => None,
            },
            download_type_str: self.download_type_str@,
            item_type: self.item_type@,
        }
    }
}

impl DeepView for DigitalItem {
    type V = DigitalItemView;

    open spec fn deep_view(&self) -> DigitalItemView {
        self.view()
    }
}

/// The year that the service's textual date format carries, or nothing when
/// the text does not parse as such a date.
pub uninterp spec fn release_year_of(date: Seq<char>) -> Option<int>;

/// Relies on chrono's `NaiveDateTime::parse_from_str` with the service's date
/// format (day, abbreviated month, year, time, zone name) followed by
/// `Datelike::year` of the parsed moment: both are functions of the date text
/// alone.
#[verifier::external_body]
fn parse_release_year(date: &str) -> (r: Option<i32>)
    ensures
        match r {
            Some(y) => release_year_of(date@) == Some(y as int),
            None => release_year_of(date@) is None,
        },
{
    chrono::NaiveDateTime::parse_from_str(date, "%d %b %Y %T %Z").ok().map(
        |dt| chrono::Datelike::year(&dt.and_utc()),
    )
}

/// The placeholder year of a release without a parsable date.
pub open spec fn unknown_year() -> Seq<char> {
    seq!['0', '0', '0', '0']
}

/// The URL of the first download entry carrying this format name.
pub open spec fn format_lookup(
    downloads: Seq<(Seq<char>, Seq<char>)>,
    format: Seq<char>,
) -> Option<Seq<char>>
    decreases downloads.len(),
{
    if downloads.len() == 0 {
        None
    } else if downloads[0].0 == format {
        Some(downloads[0].1)
    } else {
        format_lookup(downloads.drop_first(), format)
    }
}

impl DigitalItem {
    /// A single-track release, delivered as one file rather than an archive.
    pub open spec fn spec_is_single(&self) -> bool {
        (self.download_type matches Some(t) && t@ == seq!['t']) || self.download_type_str@
            == seq!['t', 'r', 'a', 'c', 'k'] || self.item_type@ == seq!['t', 'r', 'a', 'c', 'k']
    }

    /// Whether this release is a single track (by any of its kind tags)
    /// rather than a multi-track package.
    pub fn is_single(&self) -> (r: bool)
        ensures
            r == self.spec_is_single(),
    {
        proof {
            reveal_strlit("t");
            reveal_strlit("track");
            assert("t"@ =~= seq!['t']);
            assert("track"@ =~= seq!['t', 'r', 'a', 'c', 'k']);
        }
        let by_type = match &self.download_type {
            Some(t) => str_eq(t.as_str(), "t"),
            None => false,
        };
        by_type || str_eq(self.download_type_str.as_str(), "track") || str_eq(
            self.item_type.as_str(),
            "track",
        )
    }

    /// The year this release's path component shows: the year of its release
    /// date, or the placeholder when the date is absent or does not parse.
    pub open spec fn spec_release_year(&self) -> Seq<char> {
        match self.package_release_date {
            Some(d) => match release_year_of(d@) {
                Some(y) => int_str(y),
                None => unknown_year(),
            },
            None => unknown_year(),
        }
    }

    /// The release year as the destination path shows it.
    pub fn release_year(&self) -> (r: String)
        ensures
            r@ == self.spec_release_year(),
    {
        proof {
            reveal_strlit("0000");
            assert("0000"@ =~= unknown_year());
        }
        match &self.package_release_date {
            Some(d) => match parse_release_year(d.as_str()) {
                Some(y) => i32_to_string(y),
                None => "0000".to_owned(),
            },
            None => "0000".to_owned(),
        }
    }

    /// The directory this release is extracted into: the root, the sanitized
    /// artist, and the sanitized title with the release year.
    pub open spec fn spec_destination_path(&self, root: Seq<char>) -> Seq<char> {
        root + seq!['/'] + fs_safe_seq(self.artist@) + seq!['/'] + fs_safe_seq(self.title@) + seq![
            ' ',
            '(',
        ] + self.spec_release_year() + seq![')']
    }

    /// Computes the destination directory path under the given root, with
    /// filesystem-unsafe characters in the artist and title replaced by safe
    /// lookalikes.
    pub fn destination_path(&self, root: &str) -> (r: String)
        requires
            self.artist@.len() > 0,
            self.title@.len() > 0,
        ensures
            r@ == self.spec_destination_path(root@),
    {
        let mut out = root.to_owned();
        push_char(&mut out, '/');
        let safe_artist = crate::util::make_string_fs_safe(self.artist.as_str());
        let mut out = out.concat(safe_artist.as_str());
        push_char(&mut out, '/');
        let safe_title = crate::util::make_string_fs_safe(self.title.as_str());
        let mut out = out.concat(safe_title.as_str());
        push_char(&mut out, ' ');
        push_char(&mut out, '(');
        let year = self.release_year();
        let mut out = out.concat(year.as_str());
        push_char(&mut out, ')');
        proof {
            assert(out@ =~= self.spec_destination_path(root@));
        }
        out
    }

    /// The download URL this release records for an audio format, if any.
    pub fn download_url_for(&self, format: &str) -> (r: Option<&String>)
        ensures
            match self.downloads {
                Some(_) => (match r {
                    Some(url) => format_lookup(self.downloads->Some_0.deep_view(), format@)
                        == Some(url@),
                    None => format_lookup(self.downloads->Some_0.deep_view(), format@) is None,
                }),
                None => r is None,
            },
    {
        match &self.downloads {
            Some(downloads) => {
                let ghost dv = downloads.deep_view();
                proof {
                    assert(dv.skip(0) =~= dv);
                }
                let mut i: usize = 0;
                while i < downloads.len()
                    invariant
                        i <= downloads.len(),
                        dv == downloads.deep_view(),
                        self.downloads is Some,
                        self.downloads->Some_0.deep_view() == dv,
                        forall|j: int| 0 <= j < i ==> dv[j].0 != format@,
                        format_lookup(dv, format@) == format_lookup(dv.skip(i as int), format@),
                    decreases downloads.len() - i,
                {
                    proof {
                        assert(dv.skip(i as int)[0] == dv[i as int]);
                        assert(dv.skip(i as int).drop_first() =~= dv.skip(i + 1));
                    }
                    if str_eq(downloads[i].0.as_str(), format) {
                        proof {
                            assert(dv[i as int] == (downloads@[i as int].0@, downloads@[i as int].1.url@));
                            assert(format_lookup(dv.skip(i as int), format@) == Some(dv[i as int].1));
                        }
                        return Some(&downloads[i].1.url);
                    }
                    i += 1;
                }
                proof {
                    assert(dv.skip(downloads.len() as int) =~= Seq::<(Seq<char>, Seq<char>)>::empty());
                }
                None
            },
            None => None,
        }
    }
}

} // verus!
