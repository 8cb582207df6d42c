//! Workflow payloads: the data a client submits, and the verified half of the
//! payload-to-graph translation — collecting, in a fixed order, the assets
//! that must be fetched into the cache before a graph can run. Building the
//! backend-native graph JSON itself happens outside the library; fractional
//! parameters are carried opaquely as their IEEE-754 bit patterns.

use crate::cluster::cache_view;
use crate::text::{dec_str, u32_dec_string};
use vstd::prelude::*;

verus! {

/// A model reference: either a name built into the backend, or a URL to fetch.
#[derive(Clone, Debug)]
pub enum Model {
    BuildIn(String),
    Custom(String),
}

/// An input image: inline data (unsupported by the fetch path) or a URL.
#[derive(Clone, Debug)]
pub enum Image {
    Base64(String),
    Url(String),
}

#[derive(Clone, Debug)]
pub struct LoRAPayload {
    pub model: Model,
    /// Strength, as `f32` bits.
    pub weight_bits: u32,
}

#[derive(Clone, Debug)]
pub struct ControlNetPayload {
    pub model: Model,
    /// Strength, as `f32` bits.
    pub weight_bits: u32,
    /// Start of the applied range, as `f32` bits.
    pub start_at_bits: u32,
    /// End of the applied range, as `f32` bits.
    pub end_at_bits: u32,
    pub preprocessor: Option<String>,
    pub image: Image,
    pub resize_mode: String,
    /// Extra preprocessor arguments, carried as JSON text.
    pub preprocessor_params: Option<String>,
}

#[derive(Clone, Debug)]
pub struct SD15WorkflowPayload {
    pub checkpoint: Model,
    pub vae: Option<Model>,
    pub loras: Vec<LoRAPayload>,
    pub controlnets: Vec<ControlNetPayload>,
    pub prompt: String,
    pub negative_prompt: String,
    pub input_image: Option<Image>,
    pub input_mask: Option<Image>,
    /// Denoise strength, as `f32` bits.
    pub denoise_bits: Option<u32>,
    pub width: u32,
    pub height: u32,
    pub batch_size: u32,
    pub sampler: String,
    pub scheduler: String,
    pub steps: u32,
    /// Guidance scale, as `f32` bits.
    pub cfg_scale_bits: u32,
    pub seed: Option<u64>,
}

#[derive(Clone, Debug)]
pub struct SDXLWorkflowPayload {}

#[derive(Clone, Debug)]
pub struct FluxWorkflowPayload {}

#[derive(Clone, Debug)]
pub enum WorkflowPayload {
    SD15(SD15WorkflowPayload),
    SDXL(SDXLWorkflowPayload),
    Flux(FluxWorkflowPayload),
}

/// The asset fetches one model reference contributes: a custom model must be
/// downloaded into `folder`, a built-in one needs nothing.
pub open spec fn model_req(m: Model, folder: Seq<char>) -> Seq<(Seq<char>, Seq<char>)> {
    match m {
        Model::BuildIn(_) => Seq::empty(),
        Model::Custom(u) => seq![(u@, folder)],
    }
}

/// The asset fetches one image reference contributes.
pub open spec fn image_req(im: Image, folder: Seq<char>) -> Seq<(Seq<char>, Seq<char>)> {
    match im {
        Image::Base64(_) => Seq::empty(),
        Image::Url(u) => seq![(u@, folder)],
    }
}

pub open spec fn loras_req(ls: Seq<LoRAPayload>) -> Seq<(Seq<char>, Seq<char>)>
    decreases ls.len(),
{
    if ls.len() == 0 {
        Seq::empty()
    } else {
        loras_req(ls.drop_last()) + model_req(ls.last().model, "models/loras"@)
    }
}

pub open spec fn cnets_req(cs: Seq<ControlNetPayload>) -> Seq<(Seq<char>, Seq<char>)>
    decreases cs.len(),
{
    if cs.len() == 0 {
        Seq::empty()
    } else {
        cnets_req(cs.drop_last()) + model_req(cs.last().model, "models/controlnet"@) + image_req(
            cs.last().image,
            "input"@,
        )
    }
}

/// Every download the SD15 translation performs, in the order the translator
/// encounters them: checkpoint, VAE, LoRAs, control nets (model then guide
/// image), the input image, and the mask (only alongside an input image).
pub open spec fn sd15_assets(p: SD15WorkflowPayload) -> Seq<(Seq<char>, Seq<char>)> {
    model_req(p.checkpoint, "models/checkpoints"@) + (match p.vae {
        Some(v) => model_req(v, "models/vae"@),
        None => Seq::empty(),
    }) + loras_req(p.loras@) + cnets_req(p.controlnets@) + (match p.input_image {
        Some(im) => image_req(im, "input"@) + (match p.input_mask {
            Some(mk) => image_req(mk, "input"@),
            None => Seq::empty(),
        }),
        None => Seq::<(Seq<char>, Seq<char>)>::empty(),
    })
}

/// The asset list of any payload; the other payload kinds fetch nothing.
pub open spec fn payload_assets(p: WorkflowPayload) -> Seq<(Seq<char>, Seq<char>)> {
    match p {
        WorkflowPayload::SD15(inner) => sd15_assets(inner),
        WorkflowPayload::SDXL(_) => Seq::empty(),
        WorkflowPayload::Flux(_) => Seq::empty(),
    }
}

fn push_model_req(out: &mut Vec<(String, String)>, m: &Model, folder: &str)
    ensures
        cache_view(final(out)@) == cache_view(old(out)@) + model_req(*m, folder@),
{
    match m {
        Model::BuildIn(_) => {
            proof {
                assert(cache_view(out@) =~= cache_view(out@) + Seq::<(Seq<char>, Seq<char>)>::empty());
            }
        },
        Model::Custom(u) => {
            out.push((u.clone(), folder.to_owned()));
            proof {
                assert(cache_view(out@) =~= cache_view(old(out)@) + seq![(u@, folder@)]);
            }
        },
    }
}

fn push_image_req(out: &mut Vec<(String, String)>, im: &Image, folder: &str)
    ensures
        cache_view(final(out)@) == cache_view(old(out)@) + image_req(*im, folder@),
{
    match im {
        Image::Base64(_) => {
            proof {
                assert(cache_view(out@) =~= cache_view(out@) + Seq::<(Seq<char>, Seq<char>)>::empty());
            }
        },
        Image::Url(u) => {
            out.push((u.clone(), folder.to_owned()));
            proof {
                assert(cache_view(out@) =~= cache_view(old(out)@) + seq![(u@, folder@)]);
            }
        },
    }
}

impl SD15WorkflowPayload {
    /// Collects every `(url, target_folder)` this payload needs fetched,
    /// in translation order.
    pub fn asset_requests(&self) -> (r: Vec<(String, String)>)
        ensures
            cache_view(r@) == sd15_assets(*self),
    {
        let mut out: Vec<(String, String)> = Vec::new();
        proof {
            assert(cache_view(out@) =~= Seq::<(Seq<char>, Seq<char>)>::empty());
        }
        push_model_req(&mut out, &self.checkpoint, "models/checkpoints");
        match &self.vae {
            Some(v) => {
                push_model_req(&mut out, v, "models/vae");
            },
            None => {},
        }
        let ghost pre_loras = cache_view(out@);
        let n = self.loras.len();
        let mut i: usize = 0;
        while i < n
            invariant
                0 <= i <= n,
                n == self.loras@.len(),
                cache_view(out@) == pre_loras + loras_req(self.loras@.take(i as int)),
            decreases n - i,
        {
            push_model_req(&mut out, &self.loras[i].model, "models/loras");
            proof {
                assert(self.loras@.take(i + 1).drop_last() =~= self.loras@.take(i as int));
                assert(self.loras@.take(i + 1).last() == self.loras@[i as int]);
                assert(pre_loras + loras_req(self.loras@.take(i as int)) + model_req(
                    self.loras@[i as int].model,
                    "models/loras"@,
                ) =~= pre_loras + loras_req(self.loras@.take(i + 1)));
            }
            i = i + 1;
        }
        proof {
            assert(self.loras@.take(n as int) =~= self.loras@);
        }
        let ghost pre_cnets = cache_view(out@);
        let m = self.controlnets.len();
        let mut j: usize = 0;
        while j < m
            invariant
                0 <= j <= m,
                m == self.controlnets@.len(),
                cache_view(out@) == pre_cnets + cnets_req(self.controlnets@.take(j as int)),
            decreases m - j,
        {
            push_model_req(&mut out, &self.controlnets[j].model, "models/controlnet");
            push_image_req(&mut out, &self.controlnets[j].image, "input");
            proof {
                assert(self.controlnets@.take(j + 1).drop_last() =~= self.controlnets@.take(
                    j as int,
                ));
                assert(self.controlnets@.take(j + 1).last() == self.controlnets@[j as int]);
                assert(pre_cnets + cnets_req(self.controlnets@.take(j as int)) + model_req(
                    self.controlnets@[j as int].model,
                    "models/controlnet"@,
                ) + image_req(self.controlnets@[j as int].image, "input"@) =~= pre_cnets
                    + cnets_req(self.controlnets@.take(j + 1)));
            }
            j = j + 1;
        }
        proof {
            assert(self.controlnets@.take(m as int) =~= self.controlnets@);
        }
        match &self.input_image {
            Some(im) => {
                push_image_req(&mut out, im, "input");
                match &self.input_mask {
                    Some(mk) => {
                        push_image_req(&mut out, mk, "input");
                    },
                    None => {},
                }
            },
            None => {},
        }
        proof {
            assert(cache_view(out@) =~= sd15_assets(*self));
        }
        out
    }
}

impl WorkflowPayload {
    /// The cache-affinity hint handed to the picker; reserved, currently empty.
    pub fn cache_map(&self) -> (r: Vec<(String, String)>)
        ensures
            cache_view(r@) == Seq::<(Seq<char>, Seq<char>)>::empty(),
    {
        let r: Vec<(String, String)> = Vec::new();
        proof {
            assert(cache_view(r@) =~= Seq::<(Seq<char>, Seq<char>)>::empty());
        }
        r
    }

    /// The asset list of this payload, in translation order.
    pub fn asset_requests(&self) -> (r: Vec<(String, String)>)
        ensures
            cache_view(r@) == payload_assets(*self),
    {
        match self {
            WorkflowPayload::SD15(p) => p.asset_requests(),
            _ => {
                let r: Vec<(String, String)> = Vec::new();
                proof {
                    assert(cache_view(r@) =~= Seq::<(Seq<char>, Seq<char>)>::empty());
                }
                r
            },
        }
    }
}

/// The deterministic node-id counter the graph builder draws from. Ids start
/// after the reserved low numbers and grow by one per node.
pub struct CurrentNodeId {
    inner: u32,
}

impl CurrentNodeId {
    pub closed spec fn spec_inner(&self) -> u32 {
        self.inner
    }

    pub fn new() -> (r: Self)
        ensures
            r.spec_inner() == 2,
    {
        CurrentNodeId { inner: 2 }
    }

    /// Advances the counter and returns its decimal rendering.
    pub fn get(&mut self) -> (r: String)
        requires
            old(self).spec_inner() < u32::MAX,
        ensures
            final(self).spec_inner() == old(self).spec_inner() + 1,
            r@ == dec_str((old(self).spec_inner() + 1) as nat),
    {
        self.inner = self.inner + 1;
        u32_dec_string(self.inner)
    }
}

} // verus!
