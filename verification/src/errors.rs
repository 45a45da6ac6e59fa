//! Error taxonomy of the downloader: input, probe, segment and merge
//! failures, and the errors of the persistence store.

use vstd::prelude::*;
use crate::text::u64_to_dec;

verus! {

/// Failure of a download run.
#[derive(Clone, Copy, PartialEq, Eq, Structural, Debug)]
pub enum DownloadError {
    /// The URL is not absolute `http://` or `https://`.
    InvalidUrl,
    /// The server answered the probe or a range request with a non-success
    /// status.
    HttpStatus(u16),
    /// The probe response carried no `Content-Length` header.
    MissingContentLength,
    /// The `Content-Length` header was not a decimal number.
    InvalidContentLength,
    /// The resource has zero length.
    EmptyContent,
    /// No part file contributed any bytes at merge time.
    NoUsableParts,
    /// A segment's part file was empty after its worker finished.
    EmptySegmentFile(u64),
}

impl DownloadError {
    /// Human-readable description; never empty.
    pub fn message(&self) -> (r: String)
        ensures
            r@.len() > 0,
    {
        proof {
            reveal_strlit("Invalid URL: must start with http:// or https://");
            reveal_strlit("Server returned error status ");
            reveal_strlit("Content-Length header not found");
            reveal_strlit("Content-Length header is not a number");
            reveal_strlit("Server returned zero content length, cannot download empty file");
            reveal_strlit("Failed to merge any part files - no valid parts found");
            reveal_strlit("Segment file is empty after download: segment ");
        }
        match self {
            DownloadError::InvalidUrl => "Invalid URL: must start with http:// or https://".to_owned(),
            DownloadError::HttpStatus(code) => {
                let mut m = "Server returned error status ".to_owned();
                m.append(u64_to_dec(*code as u64).as_str());
                m
            },
            DownloadError::MissingContentLength => "Content-Length header not found".to_owned(),
            DownloadError::InvalidContentLength => "Content-Length header is not a number".to_owned(),
            DownloadError::EmptyContent => "Server returned zero content length, cannot download empty file".to_owned(),
            DownloadError::NoUsableParts => "Failed to merge any part files - no valid parts found".to_owned(),
            DownloadError::EmptySegmentFile(id) => {
                let mut m = "Segment file is empty after download: segment ".to_owned();
                m.append(u64_to_dec(*id).as_str());
                m
            },
        }
    }
}

/// Failure of a persistence-store operation.
#[derive(Clone, Copy, PartialEq, Eq, Structural, Debug)]
pub enum StoreError {
    /// An insert would duplicate an existing download id.
    DuplicateDownloadId,
    /// No record carries the given download id.
    NotFound,
    /// A whole-record update was handed a record without a row id.
    MissingRowId,
    /// An update would shrink a record's downloaded byte counter.
    ProgressRegression,
}

impl StoreError {
    /// Human-readable description; never empty.
    pub fn message(&self) -> (r: String)
        ensures
            r@.len() > 0,
    {
        proof {
            reveal_strlit("download id already exists");
            reveal_strlit("no download with this id");
            reveal_strlit("download record has no row id");
            reveal_strlit("update would decrease downloaded bytes");
        }
        match self {
            StoreError::DuplicateDownloadId => "download id already exists".to_owned(),
            StoreError::NotFound => "no download with this id".to_owned(),
            StoreError::MissingRowId => "download record has no row id".to_owned(),
            StoreError::ProgressRegression => "update would decrease downloaded bytes".to_owned(),
        }
    }
}

} // verus!
