//! What a rendering with a cache does when: how much is trained and from which depth on, what is
//! handed from step to step, and what the network is told to be.
use super::network::{fraction, network_tree, single};
use super::render::{
    follows, level_at, rays_of, training_pixels_of, Command, RenderLoop, Report,
    STOPPING_RATE_BITS,
};
use super::Config;
use crate::exact::{is_number, units};
use crate::json::Json;
use crate::limits::law_limits_compare;
use crate::value::Single;
use vstd::arithmetic::div_mod::{lemma_fundamental_div_mod, lemma_mod_bound};
use vstd::prelude::*;

verus! {

/// The paths of an iteration give no more examples than its batches hold, unless there is only one;
/// and one path more would give too many, unless every pixel has one.
pub proof fn law_training_paths_fill_the_batches(config: Config, n_pixels: int)
    requires
        n_pixels >= 1,
    ensures
        ({
            let n = training_pixels_of(config, n_pixels);
            let examples = config.baches_per_iter * config.batch_size;
            &&& n > 1 ==> n * (config.max_depth + 1) <= examples
            &&& n < n_pixels ==> (n + 1) * (config.max_depth + 1) > examples
        }),
{
    let e = config.baches_per_iter * config.batch_size;
    let d = config.max_depth + 1;
    let q = e / d;
    let n = training_pixels_of(config, n_pixels);
    assert(e >= 0) by (nonlinear_arith)
        requires
            e == config.baches_per_iter * config.batch_size,
    ;
    lemma_fundamental_div_mod(e, d);
    lemma_mod_bound(e, d);
    assert(n > 1 ==> n * d <= e) by (nonlinear_arith)
        requires
            e == d * q + e % d,
            0 <= e % d < d,
            n > 1 ==> n <= q,
    ;
    assert(n < n_pixels ==> (n + 1) * d > e) by (nonlinear_arith)
        requires
            e == d * q + e % d,
            0 <= e % d < d,
            n < n_pixels ==> n >= q,
            d > 0,
    ;
}

/// Where levels are trained one after the other, training starts at the deepest; after each so many
/// iterations it starts one level higher, until it starts at the first vertex, and then it stays
/// there. Elsewhere all levels are trained from the start.
pub proof fn law_levels_are_trained_upwards(max_depth: u32, k: u32, it: int)
    requires
        k > 0,
        it >= 0,
    ensures
        ({
            let level = |i: int| level_at(max_depth, Some(k), i);
            &&& level(0) == max_depth
            &&& level(it + 1) == (if (it + 1) % (k as int) == 0 && level(it) > 0 {
                level(it) - 1
            } else {
                level(it)
            })
            &&& 0 <= level(it) <= max_depth
            &&& level(it) == 0 <==> it >= k * max_depth
            &&& level_at(max_depth, None, it) == 0
        }),
{
    let d = k as int;
    let (p, q) = (it / d, (it + 1) / d);
    let (r, s) = (it % d, (it + 1) % d);
    lemma_fundamental_div_mod(it, d);
    lemma_fundamental_div_mod(it + 1, d);
    lemma_mod_bound(it, d);
    lemma_mod_bound(it + 1, d);
    assert(s == 0 ==> q == p + 1) by (nonlinear_arith)
        requires
            it == d * p + r,
            it + 1 == d * q + s,
            0 <= r < d,
            0 <= s < d,
    ;
    assert(s != 0 ==> q == p) by (nonlinear_arith)
        requires
            it == d * p + r,
            it + 1 == d * q + s,
            0 <= r < d,
            0 <= s < d,
    ;
    assert(p >= 0) by (nonlinear_arith)
        requires
            it == d * p + r,
            0 <= r < d,
            it >= 0,
    ;
    let m = max_depth as int;
    assert(p >= m <==> it >= d * m) by (nonlinear_arith)
        requires
            it == d * p + r,
            0 <= r < d,
            d > 0,
    ;
    assert(0int / d == 0) by (nonlinear_arith)
        requires
            d > 0,
    ;
    assert(it == 0 ==> p == 0) by (nonlinear_arith)
        requires
            it == d * p + r,
            0 <= r < d,
    ;
}

/// An iteration collects inputs from the level whose turn it is, asks the network about as many
/// rows as that reports, for examples from the same level on, and trains it with as many rows as
/// that reports, in as many batches as the configuration says.
pub proof fn law_an_iteration_hands_on_its_rows(
    a: RenderLoop,
    b: RenderLoop,
    c: RenderLoop,
    d: RenderLoop,
    first: Report,
    second: Report,
    third: Report,
    collect: Command,
    estimate: Command,
    train: Command,
)
    requires
        a.wf(),
        follows(a, first, collect, b),
        follows(b, second, estimate, c),
        follows(c, third, train, d),
        collect is CollectInputs,
    ensures
        ({
            let level = level_at(a.max_depth, a.per_level_training, b.it as int) as u32;
            &&& collect == (Command::CollectInputs { level })
            &&& estimate == (Command::Estimate { count: second.count, level })
            &&& train == (Command::Train { count: third.count, iters: a.baches_per_iter })
            &&& b.it == d.it
            &&& b.it < a.training_iters
        }),
{
}

/// After an iteration, training goes on unless the learning rate has fallen below the limit or the
/// iterations are over; then the image is begun, on a black film.
pub proof fn law_training_stops_when_it_should(
    l: RenderLoop,
    report: Report,
    r: Command,
    after: RenderLoop,
)
    requires
        l.wf(),
        follows(l, report, r, after),
        is_number(report.learning_rate),
    ensures
        l.phase is Train ==> (after.stopping <==> units(report.learning_rate) < units(
            Single { bits: STOPPING_RATE_BITS },
        )),
        !(l.phase is Train) ==> after.stopping == l.stopping,
        r is CollectInputs ==> !after.stopping && after.it < l.training_iters,
        r is ClearFilm && !(l.phase is Start) ==> after.stopping || after.it >= l.training_iters,
{
    law_limits_compare(report.learning_rate, Single { bits: STOPPING_RATE_BITS });
}

/// An image of the network's answers is made after an iteration where it is shown or has to be
/// saved, and always after the last one. It is saved where intermediate images are and one is due,
/// and shown where there is a display.
pub proof fn law_previews_are_made_when_they_should(
    l: RenderLoop,
    report: Report,
    r: Command,
    after: RenderLoop,
)
    requires
        l.wf(),
        follows(l, report, r, after),
        is_number(report.learning_rate),
    ensures
        l.phase is Train ==> (r is Preview <==> {
            ||| l.session.display
            ||| l.it + 1 == l.training_iters
            ||| l.session.save_intermediate && report.save_due
            ||| units(report.learning_rate) < units(Single { bits: STOPPING_RATE_BITS })
        }),
        l.phase is Preview ==> r == (Command::PreviewAnswer { count: report.count }),
        l.phase is PreviewAnswer ==> (r is Save <==> l.session.save_intermediate && l.save_due),
        l.phase is PreviewAnswer && r !is Save ==> (r is Show <==> l.session.display),
        l.phase is Save ==> (r is Show <==> l.session.display),
        r is Preview ==> l.phase is Train,
        r is Save ==> l.phase is PreviewAnswer,
{
    law_limits_compare(report.learning_rate, Single { bits: STOPPING_RATE_BITS });
}

/// In a repetition of the image with further rays, the paths are traced, each ray is followed and
/// its answers are taken, as many as the ray reported, and then the light is brought back. In a plain
/// one the answers for the first vertices are taken. Both are shown where there is a display.
pub proof fn law_a_repetition_hands_on_its_rows(
    l: RenderLoop,
    report: Report,
    r: Command,
    after: RenderLoop,
)
    requires
        l.wf(),
        follows(l, report, r, after),
    ensures
        l.phase is GatherPass ==> r == (Command::GatherAnswer { count: report.count }),
        l.phase is PlainPass ==> r == (Command::PlainAnswer { count: report.count }),
        r is Splat <==> (l.phase is GatherTrace || l.phase is GatherAnswer) && l.rays >= rays_of(l),
        r is GatherPass ==> l.rays < rays_of(l) && after.rays == l.rays + 1,
        r is GatherTrace ==> after.rays == 0 && l.final_gather is Some,
        r is PlainPass ==> l.final_gather is None,
        l.phase is Splat || l.phase is PlainAnswer ==> (r is Show <==> l.session.display),
{
}

/// The value of a field of an object.
pub open spec fn field(tree: Json, name: Seq<char>) -> Json {
    match tree {
        Json::Object(fields) => if fields.dom().contains(name) {
            fields[name]
        } else {
            Json::Null
        },
        _ => Json::Null,
    }
}

/// An entry of an array.
pub open spec fn entry(tree: Json, i: int) -> Json {
    match tree {
        Json::Array(entries) => if 0 <= i < entries.len() {
            entries[i]
        } else {
            Json::Null
        },
        _ => Json::Null,
    }
}

/// The names that the description of a network has are told apart by their length and letters.
proof fn lemma_names()
    ensures
        "loss"@.len() == 4,
        "optimizer"@.len() == 9,
        "ema_decay"@.len() == 9,
        "network"@.len() == 7,
        "encoding"@.len() == 8,
        "optimizer"@[0] == 'o',
        "ema_decay"@[0] == 'e',
        "otype"@.len() == 5,
        "nested"@.len() == 6,
        "learning_rate"@.len() == 13,
        "beta1"@.len() == 5,
        "beta2"@.len() == 5,
        "beta1"@[4] == '1',
        "beta2"@[4] == '2',
        "otype"@[4] == 'e',
        "epsilon"@.len() == 7,
        "l2_reg"@.len() == 6,
        "decay_base"@.len() == 10,
        "decay_start"@.len() == 11,
        "decay_end"@.len() == 9,
        "decay_interval"@.len() == 14,
        "n_neurons"@.len() == 9,
        "n_hidden_layers"@.len() == 15,
        "activation"@.len() == 10,
        "output_activation"@.len() == 17,
        "n_dims_to_encode"@.len() == 16,
        "type"@.len() == 4,
        "n_levels"@.len() == 8,
        "n_features_per_level"@.len() == 20,
        "log2_hashmap_size"@.len() == 17,
        "base_resolution"@.len() == 15,
        "per_level_scale"@.len() == 15,
        "base_resolution"@[0] == 'b',
        "per_level_scale"@[0] == 'p',
        "interpolation"@.len() == 13,
        "n_bins"@.len() == 6,
{
    reveal_strlit("loss");
    reveal_strlit("optimizer");
    reveal_strlit("ema_decay");
    reveal_strlit("network");
    reveal_strlit("encoding");
    reveal_strlit("otype");
    reveal_strlit("nested");
    reveal_strlit("learning_rate");
    reveal_strlit("beta1");
    reveal_strlit("beta2");
    reveal_strlit("epsilon");
    reveal_strlit("l2_reg");
    reveal_strlit("decay_base");
    reveal_strlit("decay_start");
    reveal_strlit("decay_end");
    reveal_strlit("decay_interval");
    reveal_strlit("n_neurons");
    reveal_strlit("n_hidden_layers");
    reveal_strlit("activation");
    reveal_strlit("output_activation");
    reveal_strlit("n_dims_to_encode");
    reveal_strlit("type");
    reveal_strlit("n_levels");
    reveal_strlit("n_features_per_level");
    reveal_strlit("log2_hashmap_size");
    reveal_strlit("base_resolution");
    reveal_strlit("per_level_scale");
    reveal_strlit("interpolation");
    reveal_strlit("n_bins");
}

/// The description of the network has, under the names that the library reads, what the
/// configuration says: the width and the number of its layers, the learning rate and how it decays,
/// and the grid that encodes positions.
pub proof fn law_network_is_as_configured(config: Config)
    ensures
        ({
            let tree = network_tree(config);
            let layers = field(tree, "network"@);
            let decay = field(tree, "optimizer"@);
            let adam = field(decay, "nested"@);
            let parts = field(field(tree, "encoding"@), "nested"@);
            let grid = entry(parts, 0);
            let bins = entry(parts, 1);
            &&& field(layers, "n_neurons"@) == Json::Count(config.n_hidden_units as u64)
            &&& field(layers, "n_hidden_layers"@) == Json::Count(config.n_hidden_layers as u64)
            &&& field(layers, "activation"@) == Json::Text("ReLU"@)
            &&& field(layers, "output_activation"@) == Json::Text("None"@)
            &&& field(layers, "otype"@) == Json::Text(
                if config.n_hidden_units == 16 || config.n_hidden_units == 32
                    || config.n_hidden_units == 64 || config.n_hidden_units == 128 {
                    "FullyFusedMLP"@
                } else {
                    "CutlassMLP"@
                },
            )
            &&& field(adam, "otype"@) == Json::Text("Adam"@)
            &&& field(adam, "learning_rate"@) == single(config.learning_rate)
            &&& field(adam, "beta1"@) == fraction(9, 1)
            &&& field(adam, "beta2"@) == fraction(99, 2)
            &&& field(adam, "epsilon"@) == fraction(1, 8)
            &&& field(adam, "l2_reg"@) == fraction(0, 1)
            &&& field(decay, "otype"@) == Json::Text("ExponentialDecay"@)
            &&& field(decay, "decay_base"@) == single(config.decay_rate)
            &&& field(decay, "decay_start"@) == Json::Count(0)
            &&& field(decay, "decay_end"@) == Json::Count(1_000_000)
            &&& field(decay, "decay_interval"@) == Json::Count(config.decay_interval as u64)
            &&& field(grid, "otype"@) == Json::Text("Grid"@)
            &&& field(grid, "type"@) == Json::Text("Hash"@)
            &&& field(grid, "n_levels"@) == Json::Count(config.n_hash_grid_levels as u64)
            &&& field(grid, "n_features_per_level"@) == Json::Count(
                config.n_hash_grid_features as u64,
            )
            &&& field(grid, "log2_hashmap_size"@) == Json::Count(19)
            &&& field(grid, "base_resolution"@) == Json::Count(16)
            &&& field(grid, "per_level_scale"@) == fraction(20, 1)
            &&& field(grid, "interpolation"@) == Json::Text("Linear"@)
            &&& field(bins, "otype"@) == Json::Text("OneBlob"@)
            &&& field(bins, "n_bins"@) == Json::Count(4)
            &&& field(entry(parts, 2), "otype"@) == Json::Text("Identity"@)
            &&& field(field(tree, "loss"@), "otype"@) == Json::Text("RelativeL2"@)
            &&& field(tree, "ema_decay"@) == fraction(95, 2)
        }),
{
    lemma_names();
}

/// The encodings take the inputs in their order: the grid takes the three of the position, and the
/// bins take the seven of the normal, the direction and the roughness. What is left is taken as it
/// is.
pub proof fn law_encodings_cover_the_inputs(config: Config)
    ensures
        ({
            let parts = field(field(network_tree(config), "encoding"@), "nested"@);
            let taken = |i: int| field(entry(parts, i), "n_dims_to_encode"@);
            &&& taken(0) == Json::Count(3)
            &&& taken(1) == Json::Count(7)
            &&& taken(2) == Json::Null
        }),
{
    lemma_names();
}

} // verus!
