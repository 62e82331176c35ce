//! The remote fetcher's verifiable side: building the endpoints a sync
//! talks to, and the progress accounting of a streamed download. The
//! surrounding program performs the HTTP transfer and feeds each chunk's
//! size back into the progress tracker.

use vstd::prelude::*;

use crate::config::TargetUrl;
use crate::lxc_image_metadata::LXCImageMetadata;
use crate::Error;

verus! {

/// What resolving a reference against a base URL yields, writing the
/// resolved URL back out as a string; `None` when either string is not a
/// valid URL. The resolution depends on the two strings alone.
pub uninterp spec fn join_of(base: Seq<char>, rel: Seq<char>) -> Option<Seq<char>>;

/// Relies on url::Url::parse and url::Url::join: parses the base URL,
/// resolves the reference against it, and hands the resolved URL back as
/// a string. Both steps are deterministic in their string arguments and
/// do not panic.
#[verifier::external_body]
fn join_url(base: &str, rel: &str) -> (r: Option<String>)
    ensures
        match r {
            Some(s) => join_of(base@, rel@) == Some(s@),
            None => join_of(base@, rel@) is None,
        },
{
    match url::Url::parse(base) {
        Ok(u) => match u.join(rel) {
            Ok(j) => Some(String::from(j)),
            Err(_) => None,
        },
        Err(_) => None,
    }
}

impl TargetUrl {
    /// The catalog's metadata endpoint: the index URI resolved against the
    /// origin. An origin or index URI that cannot be resolved is a
    /// configuration failure, found before any network activity.
    pub fn metadata_endpoint(&self) -> (r: Result<String, Error>)
        ensures
            match r {
                Ok(s) => join_of(self.origin@, self.index_uri@) == Some(s@),
                Err(e) => e == Error::Configuration && join_of(self.origin@, self.index_uri@)
                    is None,
            },
    {
        match join_url(self.origin.as_str(), self.index_uri.as_str()) {
            Some(s) => Ok(s),
            None => Err(Error::Configuration),
        }
    }
}

/// One file's download endpoint: the image's path resolved against the
/// origin, then the file name resolved against that.
pub fn download_endpoint(target: &TargetUrl, image: &LXCImageMetadata, file_name: &str) -> (r:
    Result<String, Error>)
    ensures
        match r {
            Ok(s) => join_of(target.origin@, image.path@) is Some && join_of(
                join_of(target.origin@, image.path@)->0,
                file_name@,
            ) == Some(s@),
            Err(e) => e == Error::Configuration && (join_of(target.origin@, image.path@) is None
                || join_of(join_of(target.origin@, image.path@)->0, file_name@) is None),
        },
{
    let dir = match join_url(target.origin.as_str(), image.path.as_str()) {
        Some(s) => s,
        None => {
            return Err(Error::Configuration);
        },
    };
    match join_url(dir.as_str(), file_name) {
        Some(s) => Ok(s),
        None => Err(Error::Configuration),
    }
}

/// The progress of one streamed download: how many bytes have arrived, of
/// how many the server announced. The count never exceeds the announced
/// size and never moves backwards.
#[derive(Debug)]
pub struct DownloadProgress {
    pub downloaded: u64,
    pub total: u64,
}

impl DownloadProgress {
    pub open spec fn wf(self) -> bool {
        self.downloaded <= self.total
    }

    /// Starts the accounting from the server's announced content length.
    /// A response without one cannot be streamed and fails the transfer.
    pub fn of(content_length: Option<u64>) -> (r: Result<DownloadProgress, Error>)
        ensures
            match r {
                Ok(p) => content_length == Some(p.total) && p.downloaded == 0 && p.wf(),
                Err(e) => e == Error::Network && content_length is None,
            },
    {
        match content_length {
            Some(total) => Ok(DownloadProgress { downloaded: 0, total }),
            None => Err(Error::Network),
        }
    }

    /// Accounts one received chunk: the count grows by the chunk's size,
    /// capped at the announced total, and never decreases.
    pub fn advance(&mut self, chunk_len: u64)
        requires
            old(self).wf(),
        ensures
            final(self).wf(),
            final(self).total == old(self).total,
            final(self).downloaded == if old(self).downloaded + chunk_len <= old(self).total {
                old(self).downloaded + chunk_len
            } else {
                old(self).total as int
            },
            final(self).downloaded >= old(self).downloaded,
    {
        let room = self.total - self.downloaded;
        if chunk_len <= room {
            self.downloaded = self.downloaded + chunk_len;
        } else {
            self.downloaded = self.total;
        }
    }

    /// Whether every announced byte has arrived.
    pub fn is_complete(&self) -> (r: bool)
        ensures
            r == (self.downloaded == self.total),
    {
        self.downloaded == self.total
    }
}

} // verus!
