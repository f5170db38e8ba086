//! What the network is made of.
use super::{Config, NRCPathTracer};
use crate::decimal::{decimal, decimal_spec, single_decimal, single_spec};
use crate::json::{
    array_value, count_value, json_number, json_text, json_tree, no_fields, null_value,
    number_value, object_value, set_field, text_value, value_text, Json,
};
use crate::value::Single;
use vstd::prelude::*;

verus! {

/// The kind of network: a fast one where there is one of that width.
pub open spec fn network_type_spec(n_hidden_units: u32) -> Seq<char> {
    if n_hidden_units == 16 || n_hidden_units == 32 || n_hidden_units == 64 || n_hidden_units
        == 128 {
        "FullyFusedMLP"@
    } else {
        "CutlassMLP"@
    }
}

/// `n / 10^scale`.
pub open spec fn fraction(n: nat, scale: nat) -> Json {
    Json::Number(json_number(decimal_spec(false, n, scale)))
}

/// A single-precision number; nothing where it is infinite or undefined.
pub open spec fn single(s: Single) -> Json {
    match single_spec(s) {
        Some(text) => Json::Number(json_number(text)),
        None => Json::Null,
    }
}

pub open spec fn loss_tree() -> Json {
    Json::Object(map!["otype"@ => Json::Text("RelativeL2"@)])
}

pub open spec fn adam_tree(config: Config) -> Json {
    Json::Object(
        map![
            "otype"@ => Json::Text("Adam"@),
            "learning_rate"@ => single(config.learning_rate),
            "beta1"@ => fraction(9, 1),
            "beta2"@ => fraction(99, 2),
            "epsilon"@ => fraction(1, 8),
            "l2_reg"@ => fraction(0, 1)
        ],
    )
}

pub open spec fn optimizer_tree(config: Config) -> Json {
    Json::Object(
        map![
            "otype"@ => Json::Text("ExponentialDecay"@),
            "decay_base"@ => single(config.decay_rate),
            "decay_start"@ => Json::Count(0),
            "decay_end"@ => Json::Count(1_000_000),
            "decay_interval"@ => Json::Count(config.decay_interval as u64),
            "nested"@ => adam_tree(config)
        ],
    )
}

pub open spec fn layers_tree(config: Config) -> Json {
    Json::Object(
        map![
            "otype"@ => Json::Text(network_type_spec(config.n_hidden_units)),
            "n_neurons"@ => Json::Count(config.n_hidden_units as u64),
            "n_hidden_layers"@ => Json::Count(config.n_hidden_layers as u64),
            "activation"@ => Json::Text("ReLU"@),
            "output_activation"@ => Json::Text("None"@)
        ],
    )
}

/// The position is encoded by a grid of hashed features.
pub open spec fn grid_tree(config: Config) -> Json {
    Json::Object(
        map![
            "n_dims_to_encode"@ => Json::Count(3),
            "otype"@ => Json::Text("Grid"@),
            "type"@ => Json::Text("Hash"@),
            "n_levels"@ => Json::Count(config.n_hash_grid_levels as u64),
            "n_features_per_level"@ => Json::Count(config.n_hash_grid_features as u64),
            "log2_hashmap_size"@ => Json::Count(19),
            "base_resolution"@ => Json::Count(16),
            "per_level_scale"@ => fraction(20, 1),
            "interpolation"@ => Json::Text("Linear"@)
        ],
    )
}

/// The normal, the direction and the roughness are encoded by bins.
pub open spec fn bins_tree() -> Json {
    Json::Object(
        map![
            "n_dims_to_encode"@ => Json::Count(7),
            "otype"@ => Json::Text("OneBlob"@),
            "n_bins"@ => Json::Count(4)
        ],
    )
}

/// The rest is taken as it is.
pub open spec fn identity_tree() -> Json {
    Json::Object(map!["otype"@ => Json::Text("Identity"@)])
}

pub open spec fn encoding_tree(config: Config) -> Json {
    Json::Object(
        map![
            "otype"@ => Json::Text("Composite"@),
            "nested"@ => Json::Array(seq![grid_tree(config), bins_tree(), identity_tree()])
        ],
    )
}

/// The description of the network.
pub open spec fn network_tree(config: Config) -> Json {
    Json::Object(
        map![
            "loss"@ => loss_tree(),
            "optimizer"@ => optimizer_tree(config),
            "ema_decay"@ => fraction(95, 2),
            "network"@ => layers_tree(config),
            "encoding"@ => encoding_tree(config)
        ],
    )
}

fn fraction_value(n: u32, scale: u32) -> (r: serde_json::Value)
    requires
        1 <= scale < 300,
    ensures
        json_tree(r) == fraction(n as nat, scale as nat),
{
    let text = decimal(n, scale);
    number_value(&text)
}

fn single_value(s: Single) -> (r: serde_json::Value)
    ensures
        json_tree(r) == single(s),
{
    match single_decimal(s) {
        Some(text) => number_value(&text),
        None => null_value(),
    }
}

impl NRCPathTracer {
    fn loss_value(&self) -> (r: serde_json::Value)
        ensures
            json_tree(r) == loss_tree(),
    {
        let mut m = no_fields();
        set_field(&mut m, "otype", text_value("RelativeL2"));
        object_value(m)
    }

    fn adam_value(&self) -> (r: serde_json::Value)
        ensures
            json_tree(r) == adam_tree(self.config),
    {
        let mut m = no_fields();
        set_field(&mut m, "otype", text_value("Adam"));
        set_field(&mut m, "learning_rate", single_value(self.config.learning_rate));
        set_field(&mut m, "beta1", fraction_value(9, 1));
        set_field(&mut m, "beta2", fraction_value(99, 2));
        set_field(&mut m, "epsilon", fraction_value(1, 8));
        set_field(&mut m, "l2_reg", fraction_value(0, 1));
        object_value(m)
    }

    fn optimizer_value(&self) -> (r: serde_json::Value)
        ensures
            json_tree(r) == optimizer_tree(self.config),
    {
        let mut m = no_fields();
        set_field(&mut m, "otype", text_value("ExponentialDecay"));
        set_field(&mut m, "decay_base", single_value(self.config.decay_rate));
        set_field(&mut m, "decay_start", count_value(0));
        set_field(&mut m, "decay_end", count_value(1_000_000));
        set_field(&mut m, "decay_interval", count_value(self.config.decay_interval));
        set_field(&mut m, "nested", self.adam_value());
        object_value(m)
    }

    /// The kind of network: a fast one where there is one of that width.
    pub fn network_type(&self) -> (r: &'static str)
        ensures
            r@ == network_type_spec(self.config.n_hidden_units),
    {
        match self.config.n_hidden_units {
            16 | 32 | 64 | 128 => "FullyFusedMLP",
            _ => "CutlassMLP",
        }
    }

    fn layers_value(&self) -> (r: serde_json::Value)
        ensures
            json_tree(r) == layers_tree(self.config),
    {
        let mut m = no_fields();
        set_field(&mut m, "otype", text_value(self.network_type()));
        set_field(&mut m, "n_neurons", count_value(self.config.n_hidden_units));
        set_field(&mut m, "n_hidden_layers", count_value(self.config.n_hidden_layers));
        set_field(&mut m, "activation", text_value("ReLU"));
        set_field(&mut m, "output_activation", text_value("None"));
        object_value(m)
    }

    fn grid_value(&self) -> (r: serde_json::Value)
        ensures
            json_tree(r) == grid_tree(self.config),
    {
        let mut m = no_fields();
        set_field(&mut m, "n_dims_to_encode", count_value(3));
        set_field(&mut m, "otype", text_value("Grid"));
        set_field(&mut m, "type", text_value("Hash"));
        set_field(&mut m, "n_levels", count_value(self.config.n_hash_grid_levels));
        set_field(&mut m, "n_features_per_level", count_value(self.config.n_hash_grid_features));
        set_field(&mut m, "log2_hashmap_size", count_value(19));
        set_field(&mut m, "base_resolution", count_value(16));
        set_field(&mut m, "per_level_scale", fraction_value(20, 1));
        set_field(&mut m, "interpolation", text_value("Linear"));
        object_value(m)
    }

    fn bins_value(&self) -> (r: serde_json::Value)
        ensures
            json_tree(r) == bins_tree(),
    {
        let mut m = no_fields();
        set_field(&mut m, "n_dims_to_encode", count_value(7));
        set_field(&mut m, "otype", text_value("OneBlob"));
        set_field(&mut m, "n_bins", count_value(4));
        object_value(m)
    }

    fn identity_value(&self) -> (r: serde_json::Value)
        ensures
            json_tree(r) == identity_tree(),
    {
        let mut m = no_fields();
        set_field(&mut m, "otype", text_value("Identity"));
        object_value(m)
    }

    fn encoding_value(&self) -> (r: serde_json::Value)
        ensures
            json_tree(r) == encoding_tree(self.config),
    {
        let mut nested: Vec<serde_json::Value> = Vec::new();
        nested.push(self.grid_value());
        nested.push(self.bins_value());
        nested.push(self.identity_value());
        assert(nested@.map_values(|v: serde_json::Value| json_tree(v)) =~= seq![
            grid_tree(self.config),
            bins_tree(),
            identity_tree(),
        ]);
        let mut m = no_fields();
        set_field(&mut m, "otype", text_value("Composite"));
        set_field(&mut m, "nested", array_value(nested));
        object_value(m)
    }

    /// The description of the network, as the library that runs it reads it.
    pub fn network_config(&self) -> (text: String)
        ensures
            text@ == json_text(network_tree(self.config)),
    {
        let mut m = no_fields();
        set_field(&mut m, "loss", self.loss_value());
        set_field(&mut m, "optimizer", self.optimizer_value());
        set_field(&mut m, "ema_decay", fraction_value(95, 2));
        set_field(&mut m, "network", self.layers_value());
        set_field(&mut m, "encoding", self.encoding_value());
        value_text(&object_value(m))
    }
}

} // verus!
