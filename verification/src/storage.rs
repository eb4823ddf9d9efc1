//! Storage profiles and credentials: where a warehouse's table data lives and
//! how new metadata file locations are derived from it.

use vstd::prelude::*;
use vstd::string::StringExecFns;

use crate::error::CatalogResult;

verus! {

/// An object-store profile for an S3-compatible store.
#[derive(Debug)]
pub struct S3Profile {
    pub bucket: String,
    pub region: String,
    pub path_style_access: Option<bool>,
    pub endpoint: Option<String>,
}

#[verifier::ext_equal]
pub struct S3ProfileV {
    pub bucket: Seq<char>,
    pub region: Seq<char>,
    pub path_style_access: Option<bool>,
    pub endpoint: Option<Seq<char>>,
}

impl View for S3Profile {
    type V = S3ProfileV;

    open spec fn view(&self) -> S3ProfileV {
        S3ProfileV {
            bucket: self.bucket@,
            region: self.region@,
            path_style_access: self.path_style_access,
            endpoint: self.endpoint.deep_view(),
        }
    }
}

impl Clone for S3Profile {
    fn clone(&self) -> (r: Self)
        ensures
            r@ == self@,
    {
        S3Profile {
            bucket: self.bucket.clone(),
            region: self.region.clone(),
            path_style_access: self.path_style_access,
            endpoint: match &self.endpoint {
                Some(e) => Some(e.clone()),
                None => None,
            },
        }
    }
}

/// The tagged description of where a warehouse's data lives.
#[derive(Debug)]
pub enum StorageProfile {
    S3(S3Profile),
}

#[verifier::ext_equal]
pub enum StorageProfileV {
    S3(S3ProfileV),
}

impl View for StorageProfile {
    type V = StorageProfileV;

    open spec fn view(&self) -> StorageProfileV {
        match self {
            StorageProfile::S3(p) => StorageProfileV::S3(p@),
        }
    }
}

impl Clone for StorageProfile {
    fn clone(&self) -> (r: Self)
        ensures
            r@ == self@,
    {
        match self {
            StorageProfile::S3(p) => StorageProfile::S3(p.clone()),
        }
    }
}

impl StorageProfile {
    /// The S3 view of the profile; `code` is the status the caller wants on a
    /// profile of another kind.
    pub fn try_into_s3(self, code: u16) -> (r: CatalogResult<S3Profile>)
        ensures
            self matches StorageProfile::S3(p) ==> (r matches Ok(q) && q@ == p@),
    {
        let _ = code;
        match self {
            StorageProfile::S3(p) => Ok(p),
        }
    }

    /// The URI of a new metadata file for a table rooted at `table_location`,
    /// named after a freshly minted metadata id.
    pub fn metadata_location(&self, table_location: &String, metadata_id_text: &String) -> (r:
        String)
        ensures
            r@ == table_location@ + "/metadata/"@ + metadata_id_text@ + ".metadata.json"@,
    {
        let mut s = table_location.clone();
        s.append("/metadata/");
        s.append(metadata_id_text.as_str());
        s.append(".metadata.json");
        s
    }
}

/// A credential for an object store; only ever handed to the secret store,
/// never persisted by the catalog itself.
#[derive(Debug)]
pub enum StorageCredential {
    S3AccessKey { aws_access_key_id: String, aws_secret_access_key: String },
}

#[verifier::ext_equal]
pub enum StorageCredentialV {
    S3AccessKey { aws_access_key_id: Seq<char>, aws_secret_access_key: Seq<char> },
}

impl View for StorageCredential {
    type V = StorageCredentialV;

    open spec fn view(&self) -> StorageCredentialV {
        match self {
            StorageCredential::S3AccessKey { aws_access_key_id, aws_secret_access_key } => {
                StorageCredentialV::S3AccessKey {
                    aws_access_key_id: aws_access_key_id@,
                    aws_secret_access_key: aws_secret_access_key@,
                }
            },
        }
    }
}

impl Clone for StorageCredential {
    fn clone(&self) -> (r: Self)
        ensures
            r@ == self@,
    {
        match self {
            StorageCredential::S3AccessKey { aws_access_key_id, aws_secret_access_key } => {
                StorageCredential::S3AccessKey {
                    aws_access_key_id: aws_access_key_id.clone(),
                    aws_secret_access_key: aws_secret_access_key.clone(),
                }
            },
        }
    }
}

} // verus!
