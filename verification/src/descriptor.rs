//! Binary descriptors: the distance between them, and matching by it.

use crate::frame::{descriptors, descriptors_of, orientation_bits, orientations};
use crate::single::{magnitude, SIGN_BIT};
use kornia_imgproc::features::{OrbFeatures, OrbMatchConfig};
use vstd::prelude::*;

verus! {

/// Number of ones in the binary representation of `n`.
pub open spec fn ones(n: nat) -> nat
    decreases n,
{
    if n == 0 {
        0
    } else {
        n % 2 + ones(n / 2)
    }
}

/// Number of bits in which two byte strings of equal length differ.
pub open spec fn hamming(a: Seq<u8>, b: Seq<u8>) -> nat
    recommends
        a.len() == b.len(),
    decreases a.len(),
{
    if a.len() == 0 {
        0
    } else {
        hamming(a.drop_last(), b.drop_last()) + ones((a.last() ^ b.last()) as nat)
    }
}

/// `kornia_imgproc::features::hamming_distance`: the number of bits in which the two
/// descriptors differ.
#[verifier::external_body]
pub(crate) fn hamming_distance(a: &[u8; 32], b: &[u8; 32]) -> (distance: u32)
    ensures
        distance == hamming(a@, b@),
{
    kornia_imgproc::features::hamming_distance(a, b)
}

proof fn lemma_ones_bound(n: nat, bits: nat)
    requires
        n < vstd::arithmetic::power2::pow2(bits),
    ensures
        ones(n) <= bits,
    decreases bits,
{
    if n > 0 {
        if bits == 0 {
            vstd::arithmetic::power2::lemma2_to64();
        } else {
            vstd::arithmetic::power2::lemma_pow2_unfold(bits);
            lemma_ones_bound(n / 2, (bits - 1) as nat);
        }
    }
}

/// Two byte strings differ in at most eight bits per byte.
pub proof fn lemma_hamming_bound(a: Seq<u8>, b: Seq<u8>)
    requires
        a.len() == b.len(),
    ensures
        hamming(a, b) <= 8 * a.len(),
    decreases a.len(),
{
    if a.len() > 0 {
        lemma_hamming_bound(a.drop_last(), b.drop_last());
        vstd::arithmetic::power2::lemma2_to64();
        lemma_ones_bound((a.last() ^ b.last()) as nat, 8);
    }
}

/// A descriptor is at distance zero from itself, and the distance does not depend on the
/// order of the two descriptors.
pub proof fn lemma_hamming_symmetric(a: Seq<u8>, b: Seq<u8>)
    requires
        a.len() == b.len(),
    ensures
        hamming(a, b) == hamming(b, a),
        hamming(a, a) == 0,
    decreases a.len(),
{
    if a.len() > 0 {
        lemma_hamming_symmetric(a.drop_last(), b.drop_last());
        let x = a.last();
        let y = b.last();
        assert(x ^ y == y ^ x) by (bit_vector);
        assert(x ^ x == 0) by (bit_vector);
    }
}

/// Fewest bins of an orientation histogram in which every difference of two angles of at
/// most a full turn has its place.
pub const FULL_TURN_BINS: usize = 27;

/// Fewest bins of an orientation histogram in which every difference of two angles of at
/// most half a turn has its place.
pub const HALF_TURN_BINS: usize = 19;

/// More bins than this do not fit in memory.
pub const MAX_BINS: usize = usize::MAX / 48;

/// The bits of a full turn in radians, in single precision.
pub const FULL_TURN_BITS: u32 = 0x40c9_0fdb;

/// The bits of half a turn in radians, in single precision.
pub const HALF_TURN_BITS: u32 = 0x4049_0fdb;

/// The bits of six tenths, in single precision.
pub const DEFAULT_RATIO: u32 = 0x3f19_999a;

/// `kornia_imgproc::features::OrbMatchConfig`: descriptor matcher settings.
#[verifier::external_type_specification]
#[verifier::external_body]
pub struct ExOrbMatchConfig(kornia_imgproc::features::OrbMatchConfig);

/// What descriptor matcher settings hold.
#[derive(Debug, Clone, Copy, PartialEq, Eq)]
pub struct MatchSettings {
    /// Nearest-neighbor ratio for accepting matches, by its bits.
    pub ratio: u32,
    /// Maximum Hamming distance to accept a match.
    pub max_distance: u32,
    /// Whether matches are kept only where their orientations differ as those of most do.
    pub check_orientation: bool,
    /// Number of bins of the orientation histogram.
    pub bins: usize,
}

/// The fields of `OrbMatchConfig`.
pub uninterp spec fn match_settings(config: OrbMatchConfig) -> MatchSettings;

/// The pairs that `match_orb_descriptors` returns for two feature sets.
pub uninterp spec fn orb_matches(
    first: OrbFeatures,
    second: OrbFeatures,
    config: OrbMatchConfig,
) -> Seq<(usize, usize)>;

/// The fields of `OrbMatchConfig`, the ratio by its bits.
#[verifier::external_body]
fn read_settings(config: &OrbMatchConfig) -> (settings: MatchSettings)
    ensures
        settings == match_settings(*config),
{
    MatchSettings {
        ratio: config.nn_ratio.to_bits(),
        max_distance: config.th_low,
        check_orientation: config.check_orientation,
        bins: config.histo_length,
    }
}

/// The settings with which descriptors are matched by default.
pub open spec fn default_settings() -> MatchSettings {
    MatchSettings { ratio: DEFAULT_RATIO, max_distance: 50, check_orientation: true, bins: 30 }
}

/// `OrbMatchConfig::default`: a ratio of six tenths, at most fifty bits of difference, and
/// orientations that are checked with thirty bins.
#[verifier::external_body]
pub(crate) fn default_match_config() -> (config: OrbMatchConfig)
    ensures
        match_settings(config) == default_settings(),
{
    OrbMatchConfig::default()
}

/// Every angle of a feature set is at most as large as one with these bits, either way.
pub open spec fn has_angles(features: OrbFeatures, largest: u32) -> bool {
    forall|i: int|
        0 <= i < orientation_bits(features).len() ==> magnitude(
            #[trigger] orientation_bits(features)[i],
        ) <= largest
}

/// The differences of the angles of two feature sets have their place in a histogram.
pub open spec fn fits_bins(first: OrbFeatures, second: OrbFeatures, bins: usize) -> bool {
    ||| bins >= FULL_TURN_BINS && has_angles(first, FULL_TURN_BITS) && has_angles(
        second,
        FULL_TURN_BITS,
    )
    ||| bins >= HALF_TURN_BINS && has_angles(first, HALF_TURN_BITS) && has_angles(
        second,
        HALF_TURN_BITS,
    )
}

/// The descriptors of the two feature sets can be matched: each has an angle, and where there
/// is something to match, the histogram fits in memory, and where orientations are checked,
/// the differences of the angles fit the histogram.
pub open spec fn can_match(
    first: OrbFeatures,
    second: OrbFeatures,
    config: OrbMatchConfig,
) -> bool {
    let settings = match_settings(config);
    &&& orientation_bits(first).len() == descriptors_of(first).len()
    &&& orientation_bits(second).len() == descriptors_of(second).len()
    &&& descriptors_of(first).len() > 0 && descriptors_of(second).len() > 0 ==> {
        &&& settings.bins <= MAX_BINS
        &&& settings.check_orientation ==> fits_bins(first, second, settings.bins)
    }
}

/// The pairs name descriptors of the two sets, those of the first in ascending order.
pub open spec fn pairs_up(matches: Seq<(usize, usize)>, n_first: nat, n_second: nat) -> bool {
    &&& forall|i: int|
        0 <= i < matches.len() ==> (#[trigger] matches[i]).0 < n_first && matches[i].1 < n_second
    &&& forall|i: int, j: int| 0 <= i < j < matches.len() ==> matches[i].0 < matches[j].0
}

/// The second descriptor of each pair is one of those nearest to the first, and no farther
/// than the settings allow.
pub open spec fn are_nearest(
    matches: Seq<(usize, usize)>,
    first: Seq<[u8; 32]>,
    second: Seq<[u8; 32]>,
    max_distance: u32,
) -> bool {
    forall|i: int|
        0 <= i < matches.len() ==> {
            let a = first[(#[trigger] matches[i]).0 as int]@;
            let distance = hamming(a, second[matches[i].1 as int]@);
            &&& distance <= max_distance
            &&& forall|j: int|
                0 <= j < second.len() ==> distance <= hamming(a, (#[trigger] second[j])@)
        }
}

/// `kornia_imgproc::features::match_orb_descriptors`: pairs of descriptors that are near each
/// other and whose orientations differ as those of most pairs do. They are a function of the
/// two feature sets and the settings, and name each descriptor of the first set at most
/// once, in ascending order, with one of the second set that is nearest to it and within the
/// maximum distance. Which of these pairs pass the ratio and the orientation test is left to
/// the name.
#[verifier::external_body]
pub(crate) fn match_orb(first: &OrbFeatures, second: &OrbFeatures, config: &OrbMatchConfig) -> (matches:
    Vec<(usize, usize)>)
    requires
        can_match(*first, *second, *config),
    ensures
        matches@ == orb_matches(*first, *second, *config),
        pairs_up(matches@, descriptors_of(*first).len(), descriptors_of(*second).len()),
        are_nearest(
            matches@,
            descriptors_of(*first),
            descriptors_of(*second),
            match_settings(*config).max_distance,
        ),
{
    kornia_imgproc::features::match_orb_descriptors(
        &first.orientations,
        &first.descriptors,
        &second.orientations,
        &second.descriptors,
        *config,
    )
}

fn are_angles(features: &OrbFeatures, largest: u32) -> (all: bool)
    ensures
        all == has_angles(*features, largest),
{
    let bits = orientations(features);
    let mut i: usize = 0;
    while i < bits.len()
        invariant
            i <= bits@.len(),
            bits@ == orientation_bits(*features),
            forall|j: int| 0 <= j < i ==> magnitude(#[trigger] bits@[j]) <= largest,
        decreases bits@.len() - i,
    {
        if bits[i] % SIGN_BIT > largest {
            assert(magnitude(orientation_bits(*features)[i as int]) > largest);
            return false;
        }
        i += 1;
    }
    true
}

/// Whether the descriptors of two feature sets can be matched.
pub fn are_matchable(first: &OrbFeatures, second: &OrbFeatures, config: &OrbMatchConfig) -> (matchable:
    bool)
    ensures
        matchable == can_match(*first, *second, *config),
{
    let n_first: usize = descriptors(first).len();
    let n_second: usize = descriptors(second).len();
    if orientations(first).len() != n_first || orientations(second).len() != n_second {
        return false;
    }
    if n_first == 0 || n_second == 0 {
        return true;
    }
    let settings = read_settings(config);
    if settings.bins > MAX_BINS {
        return false;
    }
    if !settings.check_orientation {
        return true;
    }
    if settings.bins >= FULL_TURN_BINS && are_angles(first, FULL_TURN_BITS) && are_angles(
        second,
        FULL_TURN_BITS,
    ) {
        return true;
    }
    settings.bins >= HALF_TURN_BINS && are_angles(first, HALF_TURN_BITS) && are_angles(
        second,
        HALF_TURN_BITS,
    )
}

/// Matches the descriptors of two feature sets, where they can be matched.
pub fn match_orb_descriptors(first: &OrbFeatures, second: &OrbFeatures, config: &OrbMatchConfig) -> (matches:
    Option<Vec<(usize, usize)>>)
    ensures
        matches is Some <==> can_match(*first, *second, *config),
        matches is Some ==> {
            &&& matches->0@ == orb_matches(*first, *second, *config)
            &&& pairs_up(matches->0@, descriptors_of(*first).len(), descriptors_of(*second).len())
            &&& are_nearest(
                matches->0@,
                descriptors_of(*first),
                descriptors_of(*second),
                match_settings(*config).max_distance,
            )
        },
{
    if are_matchable(first, second, config) {
        Some(match_orb(first, second, config))
    } else {
        None
    }
}

/// Whether descriptors can be matched does not depend on which set comes first, and an empty set
/// whose descriptors all have an angle can be matched with any other of that kind.
pub proof fn lemma_can_match(first: OrbFeatures, second: OrbFeatures, config: OrbMatchConfig)
    ensures
        can_match(first, second, config) <==> can_match(second, first, config),
        orientation_bits(first).len() == descriptors_of(first).len() && orientation_bits(
            second,
        ).len() == descriptors_of(second).len() && descriptors_of(first).len() == 0 ==> can_match(
            first,
            second,
            config,
        ),
        can_match(first, second, config) ==> orientation_bits(first).len() == descriptors_of(
            first,
        ).len() && orientation_bits(second).len() == descriptors_of(second).len(),
{
}

} // verus!
