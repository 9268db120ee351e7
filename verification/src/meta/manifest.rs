//! Manifests: what an image is made of, and the bytes a manifest is stored
//! and identified by.

use crate::json::{
    json_string, json_string_array, push_json_string, push_string_array, push_text,
};
use crate::meta::annotations::{Annotations, Pair};
use crate::text::{decimal, i64_to_string, signed_decimal, texts, u64_to_string};
use crate::util::{digest_of, sha256_digest};
use vstd::prelude::*;
use vstd::string::*;
use vstd::utf8::encode_utf8;

verus! {

/// The media type of an image manifest.
pub const IMAGE_MANIFEST_MEDIA_TYPE: &'static str =
    "application/vnd.docker.distribution.manifest.v2+json";

/// The media type of an image configuration.
pub const IMAGE_CONFIG_MEDIA_TYPE: &'static str = "application/vnd.oci.image.config.v1+json";

/// A reference to content: what kind it is, its digest, and what else is
/// known of it.
#[derive(Debug, Clone, PartialEq)]
pub struct Descriptor {
    pub media_type: String,
    pub digest: String,
    pub size: Option<i64>,
    pub urls: Option<Vec<String>>,
    pub annotations: Option<Annotations>,
}

/// What an image is made of: one configuration and the layers in their
/// order.
#[derive(Debug, Clone, PartialEq)]
pub struct Manifest {
    pub schema_version: u8,
    pub media_type: Option<String>,
    pub config: Descriptor,
    pub layers: Vec<Descriptor>,
    pub annotations: Option<Annotations>,
}

/// The mathematical content of a `Descriptor`.
pub struct DescriptorView {
    pub media_type: Seq<char>,
    pub digest: Seq<char>,
    pub size: Option<i64>,
    pub urls: Option<Seq<Seq<char>>>,
    pub annotations: Option<Seq<Pair>>,
}

/// The mathematical content of a `Manifest`.
pub struct ManifestView {
    pub schema_version: u8,
    pub media_type: Option<Seq<char>>,
    pub config: DescriptorView,
    pub layers: Seq<DescriptorView>,
    pub annotations: Option<Seq<Pair>>,
}

impl View for Descriptor {
    type V = DescriptorView;

    open spec fn view(&self) -> DescriptorView {
        DescriptorView {
            media_type: self.media_type@,
            digest: self.digest@,
            size: self.size,
            urls: match self.urls {
                Some(urls) => Some(texts(urls@)),
                None => None,
            },
            annotations: match self.annotations {
                Some(a) => Some(a@),
                None => None,
            },
        }
    }
}

/// The descriptors of a vector, each by its content.
pub open spec fn descriptor_views(ds: Seq<Descriptor>) -> Seq<DescriptorView> {
    Seq::new(ds.len(), |i: int| ds[i]@)
}

impl View for Manifest {
    type V = ManifestView;

    open spec fn view(&self) -> ManifestView {
        ManifestView {
            schema_version: self.schema_version,
            media_type: match self.media_type {
                Some(t) => Some(t@),
                None => None,
            },
            config: self.config@,
            layers: descriptor_views(self.layers@),
            annotations: match self.annotations {
                Some(a) => Some(a@),
                None => None,
            },
        }
    }
}

/// The descriptor that stands for a configuration nobody has described
/// yet.
pub open spec fn default_descriptor() -> DescriptorView {
    DescriptorView {
        media_type: IMAGE_CONFIG_MEDIA_TYPE@,
        digest: Seq::empty(),
        size: Some(0),
        urls: None,
        annotations: None,
    }
}

/// The manifest of an image without layers.
pub open spec fn default_manifest() -> ManifestView {
    ManifestView {
        schema_version: 2,
        media_type: None,
        config: default_descriptor(),
        layers: Seq::empty(),
        annotations: None,
    }
}

impl Default for Descriptor {
    fn default() -> (d: Descriptor)
        ensures
            d@ == default_descriptor(),
    {
        Descriptor {
            media_type: String::from_str(IMAGE_CONFIG_MEDIA_TYPE),
            digest: String::new(),
            size: Some(0),
            urls: None,
            annotations: None,
        }
    }
}

impl Default for Manifest {
    fn default() -> (m: Manifest)
        ensures
            m@ == default_manifest(),
    {
        let m = Manifest {
            schema_version: 2,
            media_type: None,
            config: Descriptor::default(),
            layers: Vec::new(),
            annotations: None,
        };
        assert(m@.layers =~= Seq::empty());
        m
    }
}

/// A text as JSON, or `null` where there is none.
pub open spec fn optional_text(o: Option<Seq<char>>) -> Seq<u8> {
    match o {
        Some(t) => json_string(t),
        None => encode_utf8("null"@),
    }
}

/// A number as JSON, or `null` where there is none.
pub open spec fn optional_number(o: Option<i64>) -> Seq<u8> {
    match o {
        Some(n) => encode_utf8(signed_decimal(n as int)),
        None => encode_utf8("null"@),
    }
}

/// A list of texts as JSON, or `null` where there is none.
pub open spec fn optional_array(o: Option<Seq<Seq<char>>>) -> Seq<u8> {
    match o {
        Some(items) => json_string_array(items),
        None => encode_utf8("null"@),
    }
}

/// The members of a JSON object, one for each entry, with a comma between
/// neighbours.
pub open spec fn members(entries: Seq<Pair>) -> Seq<u8>
    decreases entries.len(),
{
    if entries.len() == 0 {
        Seq::empty()
    } else if entries.len() == 1 {
        json_string(entries[0].0) + encode_utf8(":"@) + json_string(entries[0].1)
    } else {
        members(entries.drop_last()) + encode_utf8(","@) + json_string(entries.last().0)
            + encode_utf8(":"@) + json_string(entries.last().1)
    }
}

/// Annotations as a JSON object, or `null` where there are none.
pub open spec fn optional_object(o: Option<Seq<Pair>>) -> Seq<u8> {
    match o {
        Some(entries) => encode_utf8("{"@) + members(entries) + encode_utf8("}"@),
        None => encode_utf8("null"@),
    }
}

/// A descriptor as a JSON object.
pub open spec fn descriptor_bytes(d: DescriptorView) -> Seq<u8> {
    encode_utf8("{\"mediaType\":"@) + json_string(d.media_type) + encode_utf8(",\"digest\":"@)
        + json_string(d.digest) + encode_utf8(",\"size\":"@) + optional_number(d.size)
        + encode_utf8(",\"urls\":"@) + optional_array(d.urls) + encode_utf8(
        ",\"annotations\":"@,
    ) + optional_object(d.annotations) + encode_utf8("}"@)
}

/// Descriptors as JSON objects with a comma between neighbours.
pub open spec fn descriptor_list(ds: Seq<DescriptorView>) -> Seq<u8>
    decreases ds.len(),
{
    if ds.len() == 0 {
        Seq::empty()
    } else if ds.len() == 1 {
        descriptor_bytes(ds[0])
    } else {
        descriptor_list(ds.drop_last()) + encode_utf8(","@) + descriptor_bytes(ds.last())
    }
}

/// The bytes that a manifest is stored as and identified by: a JSON
/// object with its members in a fixed order, without blanks, annotations in
/// the order of their keys.
pub open spec fn manifest_bytes(m: ManifestView) -> Seq<u8> {
    encode_utf8("{\"schemaVersion\":"@) + encode_utf8(decimal(m.schema_version as nat))
        + encode_utf8(",\"mediaType\":"@) + optional_text(m.media_type) + encode_utf8(
        ",\"config\":"@,
    ) + descriptor_bytes(m.config) + encode_utf8(",\"layers\":["@) + descriptor_list(m.layers)
        + encode_utf8("],\"annotations\":"@) + optional_object(m.annotations) + encode_utf8(
        "}"@,
    )
}

fn push_optional_object(out: &mut Vec<u8>, annotations: &Option<Annotations>)
    ensures
        final(out)@ == old(out)@ + optional_object(
            match annotations {
                Some(a) => Some(a@),
                None => None,
            },
        ),
{
    let ghost start = out@;
    match annotations {
        None => {
            push_text(out, "null");
        },
        Some(a) => {
            push_text(out, "{");
            let n: usize = a.len();
            let mut i: usize = 0;
            assert(members(a@.take(0)) =~= Seq::<u8>::empty());
            while i < n
                invariant
                    i <= n,
                    n == a@.len(),
                    out@ == start + encode_utf8("{"@) + members(a@.take(i as int)),
                decreases n - i,
            {
                let ghost done = a@.take(i as int);
                let ghost next = a@.take(i as int + 1);
                if i > 0 {
                    push_text(out, ",");
                }
                push_json_string(out, a.key(i).as_str());
                push_text(out, ":");
                push_json_string(out, a.value(i).as_str());
                proof {
                    assert(next.drop_last() =~= done);
                    assert(next.last() == a@[i as int]);
                    if i == 0 {
                        assert(members(done) =~= Seq::<u8>::empty());
                    }
                    assert(out@ =~= start + encode_utf8("{"@) + members(next));
                }
                i = i + 1;
            }
            assert(a@.take(n as int) =~= a@);
            push_text(out, "}");
            assert(out@ =~= start + (encode_utf8("{"@) + members(a@) + encode_utf8("}"@)));
        },
    }
}

/// Appending in two steps is appending the two pieces as one.
proof fn lemma_append_twice(s: Seq<u8>, a: Seq<u8>, b: Seq<u8>)
    ensures
        (s + a) + b == s + (a + b),
{
    assert((s + a) + b =~= s + (a + b));
}

fn push_descriptor(out: &mut Vec<u8>, d: &Descriptor)
    ensures
        final(out)@ == old(out)@ + descriptor_bytes(d@),
{
    let ghost start = out@;
    push_text(out, "{\"mediaType\":");
    let ghost mut done = encode_utf8("{\"mediaType\":"@);
    push_json_string(out, d.media_type.as_str());
    proof {
        lemma_append_twice(start, done, json_string(d@.media_type));
        done = done + json_string(d@.media_type);
    }
    push_text(out, ",\"digest\":");
    proof {
        lemma_append_twice(start, done, encode_utf8(",\"digest\":"@));
        done = done + encode_utf8(",\"digest\":"@);
    }
    push_json_string(out, d.digest.as_str());
    proof {
        lemma_append_twice(start, done, json_string(d@.digest));
        done = done + json_string(d@.digest);
    }
    push_text(out, ",\"size\":");
    proof {
        lemma_append_twice(start, done, encode_utf8(",\"size\":"@));
        done = done + encode_utf8(",\"size\":"@);
    }
    match d.size {
        Some(n) => {
            let digits = i64_to_string(n);
            push_text(out, digits.as_str());
        },
        None => {
            push_text(out, "null");
        },
    }
    proof {
        lemma_append_twice(start, done, optional_number(d@.size));
        done = done + optional_number(d@.size);
    }
    push_text(out, ",\"urls\":");
    proof {
        lemma_append_twice(start, done, encode_utf8(",\"urls\":"@));
        done = done + encode_utf8(",\"urls\":"@);
    }
    match &d.urls {
        Some(urls) => {
            push_string_array(out, urls);
        },
        None => {
            push_text(out, "null");
        },
    }
    proof {
        lemma_append_twice(start, done, optional_array(d@.urls));
        done = done + optional_array(d@.urls);
    }
    push_text(out, ",\"annotations\":");
    proof {
        lemma_append_twice(start, done, encode_utf8(",\"annotations\":"@));
        done = done + encode_utf8(",\"annotations\":"@);
    }
    push_optional_object(out, &d.annotations);
    proof {
        lemma_append_twice(start, done, optional_object(d@.annotations));
        done = done + optional_object(d@.annotations);
    }
    push_text(out, "}");
    proof {
        lemma_append_twice(start, done, encode_utf8("}"@));
        done = done + encode_utf8("}"@);
    }
}

impl Manifest {
    /// The bytes that the manifest is stored as.
    pub fn to_vec(&self) -> (bytes: Vec<u8>)
        ensures
            bytes@ == manifest_bytes(self@),
    {
        let mut out: Vec<u8> = Vec::new();
        let ghost start = out@;
        push_text(&mut out, "{\"schemaVersion\":");
        let ghost mut done = encode_utf8("{\"schemaVersion\":"@);
        let version = u64_to_string(self.schema_version as u64);
        push_text(&mut out, version.as_str());
        proof {
            let piece = encode_utf8(decimal(self.schema_version as nat));
            lemma_append_twice(start, done, piece);
            done = done + piece;
        }
        push_text(&mut out, ",\"mediaType\":");
        proof {
            lemma_append_twice(start, done, encode_utf8(",\"mediaType\":"@));
            done = done + encode_utf8(",\"mediaType\":"@);
        }
        match &self.media_type {
            Some(t) => {
                push_json_string(&mut out, t.as_str());
            },
            None => {
                push_text(&mut out, "null");
            },
        }
        proof {
            lemma_append_twice(start, done, optional_text(self@.media_type));
            done = done + optional_text(self@.media_type);
        }
        push_text(&mut out, ",\"config\":");
        proof {
            lemma_append_twice(start, done, encode_utf8(",\"config\":"@));
            done = done + encode_utf8(",\"config\":"@);
        }
        push_descriptor(&mut out, &self.config);
        proof {
            lemma_append_twice(start, done, descriptor_bytes(self@.config));
            done = done + descriptor_bytes(self@.config);
        }
        push_text(&mut out, ",\"layers\":[");
        proof {
            lemma_append_twice(start, done, encode_utf8(",\"layers\":["@));
            done = done + encode_utf8(",\"layers\":["@);
        }
        let ghost head = out@;
        let mut i: usize = 0;
        assert(descriptor_list(self@.layers.take(0)) =~= Seq::<u8>::empty());
        while i < self.layers.len()
            invariant
                i <= self.layers.len(),
                out@ == head + descriptor_list(self@.layers.take(i as int)),
            decreases self.layers.len() - i,
        {
            let ghost before = self@.layers.take(i as int);
            let ghost next = self@.layers.take(i as int + 1);
            if i > 0 {
                push_text(&mut out, ",");
            }
            push_descriptor(&mut out, &self.layers[i]);
            proof {
                assert(next.drop_last() =~= before);
                assert(next.last() == self.layers@[i as int]@);
                if i == 0 {
                    assert(descriptor_list(before) =~= Seq::<u8>::empty());
                }
                assert(out@ =~= head + descriptor_list(next));
            }
            i = i + 1;
        }
        proof {
            assert(self@.layers.take(i as int) =~= self@.layers);
            lemma_append_twice(start, done, descriptor_list(self@.layers));
            done = done + descriptor_list(self@.layers);
        }
        push_text(&mut out, "],\"annotations\":");
        proof {
            lemma_append_twice(start, done, encode_utf8("],\"annotations\":"@));
            done = done + encode_utf8("],\"annotations\":"@);
        }
        push_optional_object(&mut out, &self.annotations);
        proof {
            lemma_append_twice(start, done, optional_object(self@.annotations));
            done = done + optional_object(self@.annotations);
        }
        push_text(&mut out, "}");
        proof {
            lemma_append_twice(start, done, encode_utf8("}"@));
            done = done + encode_utf8("}"@);
            assert(start + done =~= done);
        }
        out
    }

    /// The digest of the manifest: the digest of the bytes that it is
    /// stored as, computed anew at every call.
    pub fn digest(&self) -> (text: String)
        ensures
            text@ == digest_of(manifest_bytes(self@)),
    {
        let bytes = self.to_vec();
        sha256_digest(bytes.as_slice())
    }
}

} // verus!
