//! What a surface column is made of: its biome, the loose material over the
//! rock, and the material at any height.
//!
//! Surface materials follow slope, altitude, sediment and water, then give
//! way to the strata below.

use crate::flora::Biome;
use crate::key::{
    Key, K_0_05, K_0_1, K_0_12, K_0_2, K_0_25, K_0_3, K_0_4, K_0_42, K_0_5, K_0_52, K_0_58, K_0_6,
    K_0_64, K_0_8, K_0_9,
};
use crate::material::{air, ids, MaterialId};
use vstd::prelude::*;

verus! {

/// 390 m: snow lies above.
pub const SNOWLINE_M: Key = 0x43c3_0000;

/// 330 m: no trees above.
pub const TREELINE_M: Key = 0x43a5_0000;

/// The sea's level and the heights that go by it.
#[derive(Clone, Copy, Debug, PartialEq, Eq, Structural)]
pub struct Shore {
    /// The sea's surface.
    pub sea: Key,
    /// 0.3 m under it: below lies the sea floor.
    pub floor: Key,
    /// 0.3 m over it: grass grows above.
    pub grass: Key,
    /// 0.4 m over it: plants root above.
    pub root: Key,
    /// 1.5 m over it: beaches end.
    pub beach: Key,
}

/// Everything about a surface column that chunk generation needs.
#[derive(Clone, Copy, Debug, PartialEq, Eq, Structural)]
pub struct SurfaceSample {
    pub height: Key,
    /// Rise over run of the coarse surface.
    pub slope: Key,
    /// 0 away from water, 1 in the strongest channels.
    pub river: Key,
    /// Loose material above the rock: soil, alluvium, beach sand.
    pub soil_depth: Key,
    /// Temperature (falling with altitude) and moisture.
    pub temp: Key,
    pub wet: Key,
}

impl SurfaceSample {
    /// Under the sea, or a gentle slope just above it.
    pub open spec fn by_the_sea(self, shore: Shore) -> bool {
        self.height < shore.floor || self.height < shore.beach && self.slope < K_0_25
    }

    /// The biome of land from its climate.
    pub open spec fn climate(self) -> Biome {
        if self.temp < K_0_3 {
            Biome::SnowyTaiga
        } else if self.temp < K_0_42 {
            Biome::Taiga
        } else if self.temp > K_0_64 && self.wet < K_0_4 {
            Biome::Desert
        } else if self.wet > K_0_58 && self.temp < K_0_52 {
            Biome::BirchForest
        } else if self.wet > K_0_58 {
            Biome::Forest
        } else {
            Biome::Plains
        }
    }

    /// The sea and its beaches first, then altitude, then climate.
    pub open spec fn lives_in(self, shore: Shore) -> Biome {
        if self.height < shore.floor {
            Biome::Ocean
        } else if self.by_the_sea(shore) {
            Biome::Beach
        } else if self.height > SNOWLINE_M {
            Biome::Snow
        } else if self.height > TREELINE_M {
            Biome::Alpine
        } else {
            self.climate()
        }
    }

    pub fn biome(&self, shore: &Shore) -> (b: Biome)
        ensures
            b == self.lives_in(*shore),
    {
        if self.height < shore.floor {
            return Biome::Ocean;
        }
        if self.height < shore.beach && self.slope < K_0_25 {
            return Biome::Beach;
        }
        if self.height > SNOWLINE_M {
            return Biome::Snow;
        }
        if self.height > TREELINE_M {
            return Biome::Alpine;
        }
        if self.temp < K_0_3 {
            return Biome::SnowyTaiga;
        }
        if self.temp < K_0_42 {
            return Biome::Taiga;
        }
        if self.temp > K_0_64 && self.wet < K_0_4 {
            return Biome::Desert;
        }
        if self.wet > K_0_58 {
            return if self.temp < K_0_52 {
                Biome::BirchForest
            } else {
                Biome::Forest
            };
        }
        Biome::Plains
    }
}

/// What covers the rock inland, `depth` below the surface at elevation `y`,
/// away from rivers.
pub open spec fn inland(s: SurfaceSample, shore: Shore, depth: Key, y: Key) -> u16 {
    if y > SNOWLINE_M && depth < K_0_5 {
        ids::SNOW
    } else if s.lives_in(shore) is Desert {
        ids::SAND
    } else if s.lives_in(shore) is SnowyTaiga && depth < K_0_12 && s.slope < K_0_8 {
        ids::SNOW
    } else if depth < K_0_2 && y < TREELINE_M && s.slope < K_0_9 {
        ids::GRASS
    } else if s.slope > K_0_8 || y > TREELINE_M {
        ids::GRAVEL
    } else {
        ids::DIRT
    }
}

/// What covers the rock, `depth` below the surface at elevation `y`: the sea
/// floor, a beach, a river bed, or the land.
pub open spec fn cover(s: SurfaceSample, shore: Shore, depth: Key, y: Key) -> u16 {
    if s.height < shore.floor {
        if depth < K_0_8 && s.slope < K_0_4 {
            ids::SAND
        } else {
            ids::GRAVEL
        }
    } else if s.by_the_sea(shore) {
        if depth < K_0_9 {
            ids::SAND
        } else {
            ids::CLAY
        }
    } else if s.river > K_0_5 {
        if depth < K_0_6 {
            ids::GRAVEL
        } else {
            ids::SAND
        }
    } else {
        inland(s, shore, depth, y)
    }
}

/// Material of a voxel `depth` metres below the surface at elevation `y`.
pub fn loose_material(s: &SurfaceSample, shore: &Shore, depth: Key, y: Key) -> (m: MaterialId)
    ensures
        m.0 == cover(*s, *shore, depth, y),
{
    if s.height < shore.floor {
        return if depth < K_0_8 && s.slope < K_0_4 {
            MaterialId(ids::SAND)
        } else {
            MaterialId(ids::GRAVEL)
        };
    }
    if s.height < shore.beach && s.slope < K_0_25 {
        return if depth < K_0_9 {
            MaterialId(ids::SAND)
        } else {
            MaterialId(ids::CLAY)
        };
    }
    if s.river > K_0_5 {
        return if depth < K_0_6 {
            MaterialId(ids::GRAVEL)
        } else {
            MaterialId(ids::SAND)
        };
    }
    if y > SNOWLINE_M && depth < K_0_5 {
        return MaterialId(ids::SNOW);
    }
    match s.biome(shore) {
        Biome::Desert => {
            return MaterialId(ids::SAND);
        },
        Biome::SnowyTaiga => {
            if depth < K_0_12 && s.slope < K_0_8 {
                return MaterialId(ids::SNOW);
            }
        },
        _ => {},
    }
    if depth < K_0_2 && y < TREELINE_M && s.slope < K_0_9 {
        return MaterialId(ids::GRASS);
    }
    if s.slope > K_0_8 || y > TREELINE_M {
        return MaterialId(ids::GRAVEL);
    }
    MaterialId(ids::DIRT)
}

/// The material of a column at elevation `y`, `depth` below its surface, over
/// rock that is `rock` there: the sea up to its level, then air, above the
/// ground; loose material, then rock, below.
pub open spec fn stands(
    s: SurfaceSample,
    shore: Shore,
    depth: Key,
    y: Key,
    rock: MaterialId,
) -> MaterialId {
    if depth < 0 {
        if y < shore.sea {
            MaterialId(ids::WATER)
        } else {
            air()
        }
    } else if depth < s.soil_depth {
        MaterialId(cover(s, shore, depth, y))
    } else {
        rock
    }
}

/// Material at a point given its column's surface and the strata's rock.
pub fn material_at(s: &SurfaceSample, shore: &Shore, depth: Key, y: Key, rock: MaterialId) -> (m:
    MaterialId)
    ensures
        m == stands(*s, *shore, depth, y, rock),
{
    if depth < 0 {
        return if y < shore.sea {
            MaterialId(ids::WATER)
        } else {
            MaterialId(ids::AIR)
        };
    }
    if depth < s.soil_depth {
        return loose_material(s, shore, depth, y);
    }
    rock
}

/// Ground that grass and flowers grow on: above the sea, with soil, and grass
/// on top.
pub open spec fn grows_grass(s: SurfaceSample, shore: Shore) -> bool {
    s.height > shore.grass && s.soil_depth > K_0_1 && cover(s, shore, K_0_05, s.height)
        == ids::GRASS
}

pub fn grassy(s: &SurfaceSample, shore: &Shore) -> (b: bool)
    ensures
        b == grows_grass(*s, *shore),
{
    s.height > shore.grass && s.soil_depth > K_0_1 && loose_material(s, shore, K_0_05, s.height).0
        == ids::GRASS
}

/// Grass grows on dry land below the treeline, never in a desert, a river bed
/// or on the shore.
pub proof fn grass_grows_on_dry_land(s: SurfaceSample, shore: Shore, depth: Key, y: Key)
    requires
        cover(s, shore, depth, y) == ids::GRASS,
    ensures
        !s.by_the_sea(shore),
        s.river <= K_0_5,
        y < TREELINE_M,
        !(s.lives_in(shore) is Desert),
{
}

/// Only rock, water and air show where there is no soil.
pub proof fn bare_columns_are_rock(
    s: SurfaceSample,
    shore: Shore,
    depth: Key,
    y: Key,
    rock: MaterialId,
)
    requires
        s.soil_depth <= 0,
    ensures
        depth >= 0 ==> stands(s, shore, depth, y, rock) == rock,
        depth < 0 ==> stands(s, shore, depth, y, rock) == air() || stands(s, shore, depth, y, rock)
            == MaterialId(ids::WATER),
{
}

/// The water of the sea has a level surface: no column has air below it or
/// water above it.
pub proof fn the_sea_is_level(
    s: SurfaceSample,
    shore: Shore,
    depth: Key,
    y: Key,
    rock: MaterialId,
)
    requires
        rock != MaterialId(ids::WATER),
        rock != air(),
    ensures
        stands(s, shore, depth, y, rock) == MaterialId(ids::WATER) <==> depth < 0 && y < shore.sea,
        stands(s, shore, depth, y, rock) == air() <==> depth < 0 && y >= shore.sea,
{
}

/// Every biome has its ground: the sea below the floor line, beaches on gentle
/// slopes up to the beach line, snow above 390 m and the alpine above 330 m;
/// lower land goes by its climate.
pub proof fn biomes_have_their_ground(s: SurfaceSample, shore: Shore)
    requires
        shore.floor <= shore.beach < 0x43a5_0000,
    ensures
        s.lives_in(shore) is Ocean <==> s.height < shore.floor,
        s.lives_in(shore) is Beach <==> shore.floor <= s.height < shore.beach && s.slope
            < 0x3e80_0000,
        s.lives_in(shore) is Snow <==> s.height > 0x43c3_0000,
        s.lives_in(shore) is Alpine <==> 0x43a5_0000 < s.height <= 0x43c3_0000,
{
}

/// Every biome of lower land has its climate: the snowy taiga below 0.3, the
/// taiga from there to 0.42, the desert where it is over 0.64 and drier than
/// 0.4; woods where it is wetter than 0.58, birch below 0.52; else plains.
pub proof fn biomes_have_their_climate(s: SurfaceSample, shore: Shore)
    requires
        s.height >= shore.floor,
        s.height >= shore.beach || s.slope >= 0x3e80_0000,
        s.height <= 0x43a5_0000,
    ensures
        s.lives_in(shore) is SnowyTaiga <==> s.temp < 0x3e99_999a,
        s.lives_in(shore) is Taiga <==> 0x3e99_999a <= s.temp < 0x3ed7_0a3d,
        s.lives_in(shore) is Desert <==> s.temp > 0x3f23_d70a && s.wet < 0x3ecc_cccd,
        s.lives_in(shore) is BirchForest <==> 0x3ed7_0a3d <= s.temp < 0x3f05_1eb8 && s.wet
            > 0x3f14_7ae1,
        s.lives_in(shore) is Forest <==> s.temp >= 0x3f05_1eb8 && s.wet > 0x3f14_7ae1,
        s.lives_in(shore) is Plains <==> s.temp >= 0x3ed7_0a3d && s.wet <= 0x3f14_7ae1 && !(s.temp
            > 0x3f23_d70a && s.wet < 0x3ecc_cccd),
{
}

/// What lies on the sea floor, a beach and a river bed, from the top down:
/// sand then gravel, sand then clay, gravel then sand; steep sea floor is
/// gravel all through.
pub proof fn wet_ground_is_sorted(s: SurfaceSample, shore: Shore, depth: Key, y: Key)
    requires
        shore.floor <= shore.beach,
    ensures
        s.height < shore.floor ==> cover(s, shore, depth, y) == (if depth < 0x3f4c_cccd && s.slope
            < 0x3ecc_cccd {
            ids::SAND
        } else {
            ids::GRAVEL
        }),
        shore.floor <= s.height < shore.beach && s.slope < 0x3e80_0000 ==> cover(
            s,
            shore,
            depth,
            y,
        ) == (if depth < 0x3f66_6666 {
            ids::SAND
        } else {
            ids::CLAY
        }),
        s.height >= shore.floor && (s.height >= shore.beach || s.slope >= 0x3e80_0000) && s.river
            > 0x3f00_0000 ==> cover(s, shore, depth, y) == (if depth < 0x3f19_999a {
            ids::GRAVEL
        } else {
            ids::SAND
        }),
{
}

/// On dry land each cover has its place: snow above the snowline and, thinner,
/// in the snowy taiga; sand in the desert; turf a fifth of a metre deep on
/// what is not too steep or high; scree on steep and high ground; earth
/// elsewhere.
pub proof fn dry_ground_has_its_cover(s: SurfaceSample, shore: Shore, depth: Key, y: Key)
    requires
        s.height >= shore.floor,
        s.height >= shore.beach || s.slope >= 0x3e80_0000,
        s.river <= 0x3f00_0000,
    ensures
        ({
            let m = cover(s, shore, depth, y);
            let b = s.lives_in(shore);
            let deep_snow = y > 0x43c3_0000 && depth < 0x3f00_0000;
            let thin_snow = b is SnowyTaiga && depth < 0x3df5_c28f && s.slope < 0x3f4c_cccd;
            &&& m == ids::SNOW <==> deep_snow || thin_snow
            &&& m == ids::SAND <==> b is Desert && !deep_snow
            &&& m == ids::GRASS <==> !thin_snow && !(b is Desert) && depth < 0x3e4c_cccd && y
                < 0x43a5_0000 && s.slope < 0x3f66_6666
            &&& m == ids::DIRT <==> !(b is Desert) && !thin_snow && s.slope <= 0x3f4c_cccd && y
                <= 0x43a5_0000 && !(depth < 0x3e4c_cccd && y < 0x43a5_0000)
            &&& m == ids::GRAVEL ==> s.slope > 0x3f4c_cccd || y > 0x43a5_0000
            &&& m == ids::SNOW || m == ids::SAND || m == ids::GRASS || m == ids::DIRT || m
                == ids::GRAVEL
        }),
{
}

/// Below the surface lies loose material as deep as the soil goes, then rock.
pub proof fn soil_lies_over_rock(
    s: SurfaceSample,
    shore: Shore,
    depth: Key,
    y: Key,
    rock: MaterialId,
)
    requires
        depth >= 0,
    ensures
        depth >= s.soil_depth ==> stands(s, shore, depth, y, rock) == rock,
        depth < s.soil_depth ==> stands(s, shore, depth, y, rock).0 == cover(s, shore, depth, y),
{
}

/// Grass and flowers stand above the grass line on more than a tenth of a
/// metre of soil whose top is turf.
pub proof fn grass_needs_turf(s: SurfaceSample, shore: Shore)
    ensures
        grows_grass(s, shore) <==> s.height > shore.grass && s.soil_depth > 0x3dcc_cccd && cover(
            s,
            shore,
            0x3d4c_cccd,
            s.height,
        ) == ids::GRASS,
{
}

} // verus!
