//! Token metadata: the common collection metadata, the screen that keeps a
//! metadata record from carrying both of its mutually exclusive forms, and
//! the projection of an image index vector into display metadata.
use crate::error::ServerError;
use crate::state::ServerState;
use vstd::prelude::*;
use vstd::string::StringExecFns;

verus! {

/// Token metadata: an off-chain uri or on-chain data, never both.
#[derive(Clone, PartialEq, Debug)]
pub struct Metadata {
    /// optional uri for off-chain metadata
    pub token_uri: Option<String>,
    /// optional on-chain metadata
    pub extension: Option<Extension>,
}

/// On-chain metadata.
#[derive(Clone, PartialEq, Debug)]
pub struct Extension {
    /// url to the image
    pub image: Option<String>,
    /// raw image data
    pub image_data: Option<String>,
    /// url to view the item
    pub external_url: Option<String>,
    /// item description
    pub description: Option<String>,
    /// name of the item
    pub name: Option<String>,
    /// item attributes
    pub attributes: Option<Vec<Trait>>,
    /// background color, six-character hexadecimal
    pub background_color: Option<String>,
    /// url to a multimedia attachment
    pub animation_url: Option<String>,
    /// url to a video
    pub youtube_url: Option<String>,
    /// media files with optional authentication
    pub media: Option<Vec<MediaFile>>,
    /// attributes whose types are public but whose values are private
    pub protected_attributes: Option<Vec<String>>,
}

/// One displayed attribute.
#[derive(Clone, PartialEq, Debug)]
pub struct Trait {
    /// how the trait should be displayed
    pub display_type: Option<String>,
    /// name of the trait
    pub trait_type: Option<String>,
    /// trait value
    pub value: String,
    /// optional maximum for numerical traits
    pub max_value: Option<String>,
}

/// A media file reference.
#[derive(Clone, PartialEq, Debug)]
pub struct MediaFile {
    /// file type
    pub file_type: Option<String>,
    /// file extension
    pub extension: Option<String>,
    /// authentication information
    pub authentication: Option<Authentication>,
    /// url to the file
    pub url: String,
}

/// Media file authentication.
#[derive(Clone, PartialEq, Debug)]
pub struct Authentication {
    /// decryption key or password
    pub key: Option<String>,
    /// username for basic authentication
    pub user: Option<String>,
}

/// The metadata common to all tokens.
#[derive(Clone, PartialEq, Debug)]
pub struct CommonMetadata {
    /// common public metadata
    pub public: Option<Metadata>,
    /// common private metadata
    pub private: Option<Metadata>,
}

/// Public and private metadata of one token.
#[derive(Clone, PartialEq, Debug)]
pub struct TokenMetadata {
    pub public_metadata: Option<Metadata>,
    pub private_metadata: Option<Metadata>,
}

/// Wrapper carrying a `TokenMetadata` response.
#[derive(Clone, PartialEq, Debug)]
pub struct TokenMetadataResponse {
    pub metadata: TokenMetadata,
}

/// Screens a metadata record: carrying both the off-chain uri and the
/// on-chain extension is an error, carrying neither empties the record,
/// and anything else passes through.
pub fn filter_metadata(metadata: Metadata) -> (r: Result<Option<Metadata>, ServerError>)
    ensures
        match r {
            Ok(m) => match m {
                Some(kept) => kept == metadata && (metadata.token_uri is Some
                    || metadata.extension is Some) && !(metadata.token_uri is Some
                    && metadata.extension is Some),
                None => metadata.token_uri is None && metadata.extension is None,
            },
            Err(e) => e == ServerError::MetadataBothForms && metadata.token_uri is Some
                && metadata.extension is Some,
        },
{
    let has_uri = metadata.token_uri.is_some();
    let has_xten = metadata.extension.is_some();
    if has_uri == has_xten {
        if has_uri {
            return Err(ServerError::MetadataBothForms);
        }
        Ok(None)
    } else {
        Ok(Some(metadata))
    }
}

/// Updates the common metadata: each provided record is screened and
/// replaces its slot; an empty result clears the slot.  Errs — changing
/// nothing — when a provided record carries both forms.
pub fn try_set_metadata(
    common: &mut CommonMetadata,
    public_metadata: Option<Metadata>,
    private_metadata: Option<Metadata>,
) -> (r: Result<(), ServerError>)
    ensures
        match r {
            Ok(()) => (public_metadata is None ==> final(common).public == old(common).public) && (
            private_metadata is None ==> final(common).private == old(common).private),
            Err(e) => e == ServerError::MetadataBothForms && *final(common) == *old(common),
        },
{
    let new_public = match public_metadata {
        Some(m) => Some(
            match filter_metadata(m) {
                Ok(f) => f,
                Err(e) => {
                    return Err(e);
                },
            },
        ),
        None => None,
    };
    let new_private = match private_metadata {
        Some(m) => Some(
            match filter_metadata(m) {
                Ok(f) => f,
                Err(e) => {
                    return Err(e);
                },
            },
        ),
        None => None,
    };
    match new_public {
        Some(p) => {
            common.public = p;
        },
        None => {},
    }
    match new_private {
        Some(p) => {
            common.private = p;
        },
        None => {},
    }
    Ok(())
}

/// The svg fragment one image slot contributes: the variant's payload when
/// the slot is disclosed, nothing otherwise.
pub open spec fn svg_of_slot(state: ServerState, image: Seq<u8>, i: int) -> Seq<char> {
    if image[i] == crate::roller::UNROLLED {
        Seq::empty()
    } else {
        match state.variants@[i]@[image[i] as int].svg {
            Some(s) => s@,
            None => Seq::empty(),
        }
    }
}

/// The concatenated svg fragments of the image from slot `i` on.
pub open spec fn svg_from(state: ServerState, image: Seq<u8>, i: int) -> Seq<char>
    decreases image.len() - i,
{
    if i < 0 || i >= image.len() {
        Seq::empty()
    } else {
        svg_of_slot(state, image, i) + svg_from(state, image, i + 1)
    }
}

/// Builds the displayable metadata of an image index vector: the assembled
/// svg markup and one attribute per displayed category — the variant's
/// display name when disclosed, a placeholder when not — plus a count of
/// the still-hidden traits.
#[verifier::loop_isolation(false)]
pub fn token_metadata(state: &ServerState, common: &CommonMetadata, image: &Vec<u8>) -> (r: Result<
    TokenMetadata,
    ServerError,
>)
    requires
        state.wf(),
        image@.len() <= state.cat_cnt(),
        forall|i: int|
            0 <= i < image@.len() ==> image@[i] == crate::roller::UNROLLED || (image@[i] as int)
                < state.variants@[i]@.len(),
    ensures
        match r {
            Ok(meta) => {
                &&& match meta.public_metadata {
                    Some(m) => match m.extension {
                        Some(x) => {
                            &&& match x.image_data {
                                Some(d) => d@ == "<svg xmlns=\"http://www.w3.org/2000/svg\" viewBox=\"0 -0.5 24 24\" shape-rendering=\"crispEdges\">"@
                                    + svg_from(*state, image@, 0) + "</svg>"@,
                                None => false,
                            }
                            &&& x.attributes is Some
                        },
                        None => false,
                    },
                    None => false,
                }
                &&& (meta.private_metadata is Some) == (common.private is Some)
            },
            Err(e) => e == ServerError::MetadataBothForms,
        },
{
    let mut public_metadata = match &common.public {
        Some(m) => match filter_metadata(
            Metadata {
                token_uri: match &m.token_uri {
                    Some(u) => Some(u.clone()),
                    None => None,
                },
                extension: match &m.extension {
                    Some(x) => Some(x.clone()),
                    None => None,
                },
            },
        ) {
            Ok(Some(f)) => f,
            Ok(None) => Metadata { token_uri: None, extension: None },
            Err(e) => {
                return Err(e);
            },
        },
        None => Metadata { token_uri: None, extension: None },
    };
    let mut xten = match public_metadata.extension {
        Some(x) => x,
        None => Extension {
            image: None,
            image_data: None,
            external_url: None,
            description: None,
            name: None,
            attributes: None,
            background_color: None,
            animation_url: None,
            youtube_url: None,
            media: None,
            protected_attributes: None,
        },
    };
    let mut image_data: String =
        "<svg xmlns=\"http://www.w3.org/2000/svg\" viewBox=\"0 -0.5 24 24\" shape-rendering=\"crispEdges\">".to_owned();
    let ghost header = image_data@;
    let mut attributes: Vec<Trait> = Vec::new();
    let mut trait_cnt: u16 = 0;
    let mut revealed: u16 = 0;
    let n = image.len();
    let mut i: usize = 0;
    while i < n
        invariant
            i <= n,
            n == image@.len() <= state.cat_cnt(),
            state.wf(),
            forall|q: int|
                0 <= q < image@.len() ==> image@[q] == crate::roller::UNROLLED || (image@[q] as int)
                    < state.variants@[q]@.len(),
            image_data@ == header + (svg_from(*state, image@, 0).take(svg_from(
                *state,
                image@,
                0,
            ).len() - svg_from(*state, image@, i as int).len())),
            svg_from(*state, image@, 0).len() >= svg_from(*state, image@, i as int).len(),
            svg_from(*state, image@, 0).skip(svg_from(*state, image@, 0).len() - svg_from(
                *state,
                image@,
                i as int,
            ).len()) == svg_from(*state, image@, i as int),
            revealed <= trait_cnt <= i,
        decreases n - i,
    {
        let ghost pre = image_data@;
        let ghost rest_pre = svg_from(*state, image@, i as int);
        let disp_trait = !crate::canonical::contains_u8(&state.roll.skip, i as u8);
        let var_idx = image[i];
        if var_idx != crate::roller::UNROLLED {
            match &state.variants[i][var_idx as usize].svg {
                Some(svg) => {
                    image_data.append(svg.as_str());
                },
                None => {},
            }
            if disp_trait {
                attributes.push(
                    Trait {
                        display_type: None,
                        trait_type: Some(state.categories[i].name.clone()),
                        value: state.variants[i][var_idx as usize].display.clone(),
                        max_value: None,
                    },
                );
                revealed = revealed + 1;
                trait_cnt = trait_cnt + 1;
            }
        } else {
            if disp_trait {
                attributes.push(
                    Trait {
                        display_type: None,
                        trait_type: Some(state.categories[i].name.clone()),
                        value: "???".to_owned(),
                        max_value: None,
                    },
                );
                trait_cnt = trait_cnt + 1;
            }
        }
        proof {
            let full = svg_from(*state, image@, 0);
            let rest_post = svg_from(*state, image@, i as int + 1);
            assert(rest_pre == svg_of_slot(*state, image@, i as int) + rest_post);
            assert(image_data@ == pre + svg_of_slot(*state, image@, i as int));
            assert(full.skip(full.len() - rest_pre.len()).skip(rest_pre.len() - rest_post.len())
                =~= full.skip(full.len() - rest_post.len()));
            assert(rest_pre.skip(rest_pre.len() - rest_post.len()) =~= rest_post);
            assert(rest_pre.take(rest_pre.len() - rest_post.len()) =~= svg_of_slot(
                *state,
                image@,
                i as int,
            ));
            assert(full.take(full.len() - rest_pre.len()) + rest_pre.take(
                rest_pre.len() - rest_post.len(),
            ) =~= full.take(full.len() - rest_post.len()));
            assert(image_data@ == header + full.take(full.len() - rest_post.len()));
        }
        i = i + 1;
    }
    proof {
        assert(svg_from(*state, image@, n as int).len() == 0);
        assert(svg_from(*state, image@, 0).take(svg_from(*state, image@, 0).len() as int)
            =~= svg_from(*state, image@, 0));
    }
    let hidden = trait_cnt - revealed;
    if hidden > 0 {
        attributes.push(
            Trait {
                display_type: None,
                trait_type: Some("Hidden Traits".to_owned()),
                value: decimal_string(hidden),
                max_value: None,
            },
        );
    }
    image_data.append("</svg>");
    xten.image_data = Some(image_data);
    xten.attributes = Some(attributes);
    public_metadata.extension = Some(xten);
    let private = match &common.private {
        Some(m) => Some(
            Metadata {
                token_uri: match &m.token_uri {
                    Some(u) => Some(u.clone()),
                    None => None,
                },
                extension: match &m.extension {
                    Some(x) => Some(x.clone()),
                    None => None,
                },
            },
        ),
        None => None,
    };
    Ok(TokenMetadata { public_metadata: Some(public_metadata), private_metadata: private })
}

/// Relies on u16's Display implementation: the decimal digits of the value.
#[verifier::external_body]
fn decimal_string(x: u16) -> (r: String)
{
    x.to_string()
}

} // verus!
