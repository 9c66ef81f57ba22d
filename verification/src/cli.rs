//! Command line parsing. A handful of flags does not justify a parser crate.

use crate::demo::Demo;
use vstd::prelude::*;
use vstd::string::*;

verus! {

pub enum Mode {
    Window,
    /// Render headless and write the final frame to a PNG.
    Capture(String),
    /// Render headless and print the profiler table.
    Bench,
}

/// Quality tiers.
#[derive(Clone, Copy, Debug, PartialEq, Eq, Structural)]
pub enum Preset {
    Realistic,
    HyperRealistic,
    UltraRealistic,
    SuperUltraCrazyDuperRealistic,
}

/// Indirect light methods.
#[derive(Clone, Copy, Debug, PartialEq, Eq, Structural)]
pub enum GiMethod {
    Restir,
    Cascades,
}

/// What an argument is as a decimal number of hours.
pub enum HoursRead {
    /// Not a number, and why.
    Bad(String),
    /// A number outside 0 to 24.
    Outside,
    Fine,
}

/// What an argument is as a list of decimal numbers.
pub enum ListRead {
    /// Some item is not a number, and why.
    Bad(String),
    /// All are, and how many.
    Numbers(usize),
}

/// One argument, read as each sort of decimal it may have to be.
pub struct Reading {
    pub hours: HoursRead,
    pub list: ListRead,
}

pub struct Args {
    pub mode: Mode,
    pub frames: u32,
    /// Set when `--frames` is given explicitly; the window then closes itself.
    pub exit_after: Option<u32>,
    pub size: (u32, u32),
    pub software: bool,
    /// Draw the profiler overlay into headless captures.
    pub hud: bool,
    /// Renderer debug view index.
    pub debug_view: u32,
    pub no_beam: bool,
    pub seed: u64,
    pub world_dir: String,
    /// Which argument gives the headless camera's position and target.
    pub camera: Option<usize>,
    /// Scripted play before a headless capture.
    pub demo: Option<Demo>,
    pub quality: Preset,
    /// Which argument gives the time of day in hours.
    pub time: Option<usize>,
    /// Overrides the preset's indirect light method.
    pub gi: Option<GiMethod>,
    /// Start in creative play.
    pub creative: bool,
    /// Which argument gives a thin lens's focus and f-number.
    pub dof: Option<usize>,
    /// Simulate debris without drawing it.
    pub hide_bodies: bool,
    /// Step physics off the main thread.
    pub physics_thread: bool,
}

/// Why a whole number cannot be read.
#[derive(Clone, Copy, Debug, PartialEq, Eq, Structural)]
pub enum NumberError {
    Empty,
    InvalidDigit,
    TooLarge,
}

pub enum CliError {
    /// A flag that takes a value is the last argument.
    NeedsValue(String),
    /// The value of a flag is not a whole number it can hold.
    Number(String, NumberError),
    /// The value of a flag is not a decimal number.
    Decimal(String, String),
    SizeShape,
    CameraShape,
    LensShape,
    TimeRange,
    UnknownDemo(String),
    UnknownGi(String),
    UnknownQuality(String),
    Help,
    Unknown(String),
}

pub ghost enum ModeModel {
    Window,
    Capture(Seq<char>),
    Bench,
}

pub ghost struct ArgsModel {
    pub mode: ModeModel,
    pub frames: u32,
    pub exit_after: Option<u32>,
    pub size: (u32, u32),
    pub software: bool,
    pub hud: bool,
    pub debug_view: u32,
    pub no_beam: bool,
    pub seed: u64,
    pub world_dir: Seq<char>,
    pub camera: Option<usize>,
    pub demo: Option<Demo>,
    pub quality: Preset,
    pub time: Option<usize>,
    pub gi: Option<GiMethod>,
    pub creative: bool,
    pub dof: Option<usize>,
    pub hide_bodies: bool,
    pub physics_thread: bool,
}

pub ghost enum ErrorModel {
    NeedsValue(Seq<char>),
    Number(Seq<char>, NumberError),
    Decimal(Seq<char>, Seq<char>),
    SizeShape,
    CameraShape,
    LensShape,
    TimeRange,
    UnknownDemo(Seq<char>),
    UnknownGi(Seq<char>),
    UnknownQuality(Seq<char>),
    Help,
    Unknown(Seq<char>),
}

impl View for Mode {
    type V = ModeModel;

    open spec fn view(&self) -> ModeModel {
        match self {
            Mode::Window => ModeModel::Window,
            Mode::Capture(p) => ModeModel::Capture(p@),
            Mode::Bench => ModeModel::Bench,
        }
    }
}

impl View for Args {
    type V = ArgsModel;

    open spec fn view(&self) -> ArgsModel {
        ArgsModel {
            mode: self.mode@,
            frames: self.frames,
            exit_after: self.exit_after,
            size: self.size,
            software: self.software,
            hud: self.hud,
            debug_view: self.debug_view,
            no_beam: self.no_beam,
            seed: self.seed,
            world_dir: self.world_dir@,
            camera: self.camera,
            demo: self.demo,
            quality: self.quality,
            time: self.time,
            gi: self.gi,
            creative: self.creative,
            dof: self.dof,
            hide_bodies: self.hide_bodies,
            physics_thread: self.physics_thread,
        }
    }
}

impl View for CliError {
    type V = ErrorModel;

    open spec fn view(&self) -> ErrorModel {
        match self {
            CliError::NeedsValue(f) => ErrorModel::NeedsValue(f@),
            CliError::Number(f, e) => ErrorModel::Number(f@, *e),
            CliError::Decimal(f, e) => ErrorModel::Decimal(f@, e@),
            CliError::SizeShape => ErrorModel::SizeShape,
            CliError::CameraShape => ErrorModel::CameraShape,
            CliError::LensShape => ErrorModel::LensShape,
            CliError::TimeRange => ErrorModel::TimeRange,
            CliError::UnknownDemo(n) => ErrorModel::UnknownDemo(n@),
            CliError::UnknownGi(n) => ErrorModel::UnknownGi(n@),
            CliError::UnknownQuality(n) => ErrorModel::UnknownQuality(n@),
            CliError::Help => ErrorModel::Help,
            CliError::Unknown(a) => ErrorModel::Unknown(a@),
        }
    }
}

/// Whether two texts are the same.
pub(crate) fn same(a: &str, b: &str) -> (r: bool)
    ensures
        r == (a@ == b@),
{
    a.to_owned() == b.to_owned()
}

pub open spec fn is_digit(c: char) -> bool {
    '0' <= c <= '9'
}

/// Reads the digits of `s` from place `i` on, `n` being what came before: the
/// first character that is no digit, or takes the number over `max`, decides.
pub open spec fn digits(s: Seq<char>, i: int, n: int, max: int) -> Result<int, NumberError>
    decreases s.len() - i,
{
    if i >= s.len() {
        Ok(n)
    } else if !is_digit(s[i]) {
        Err(NumberError::InvalidDigit)
    } else if n * 10 + (s[i] as int - '0' as int) > max {
        Err(NumberError::TooLarge)
    } else {
        digits(s, i + 1, n * 10 + (s[i] as int - '0' as int), max)
    }
}

/// A whole number of at most `max`: digits, after a plus sign if there is one.
pub open spec fn number(s: Seq<char>, max: int) -> Result<int, NumberError> {
    if s.len() == 0 {
        Err(NumberError::Empty)
    } else if s[0] == '+' && s.len() == 1 {
        Err(NumberError::InvalidDigit)
    } else if s[0] == '+' {
        digits(s, 1, 0, max)
    } else {
        digits(s, 0, 0, max)
    }
}

pub fn parse_number(s: &str, max: u64) -> (r: Result<u64, NumberError>)
    ensures
        match number(s@, max as int) {
            Ok(n) => r matches Ok(v) && v == n,
            Err(e) => r == Err::<u64, NumberError>(e),
        },
{
    let len: usize = s.unicode_len();
    if len == 0 {
        return Err(NumberError::Empty);
    }
    let plus: bool = s.get_char(0) == '+';
    if plus && len == 1 {
        return Err(NumberError::InvalidDigit);
    }
    let mut i: usize = if plus {
        1
    } else {
        0
    };
    let mut n: u64 = 0;
    while i < len
        invariant
            len == s@.len(),
            i <= len,
            n <= max,
            number(s@, max as int) == digits(s@, i as int, n as int, max as int),
        decreases len - i,
    {
        let c: char = s.get_char(i);
        if c < '0' || c > '9' {
            return Err(NumberError::InvalidDigit);
        }
        let d: u128 = (c as u32 - '0' as u32) as u128;
        let next: u128 = n as u128 * 10 + d;
        if next > max as u128 {
            return Err(NumberError::TooLarge);
        }
        n = next as u64;
        i += 1;
    }
    Ok(n)
}

pub open spec fn preset(s: Seq<char>) -> Option<Preset> {
    if s == "0"@ || s == "realistic"@ {
        Some(Preset::Realistic)
    } else if s == "1"@ || s == "hyper-realistic"@ {
        Some(Preset::HyperRealistic)
    } else if s == "2"@ || s == "ultra-realistic"@ {
        Some(Preset::UltraRealistic)
    } else if s == "3"@ || s == "super-ultra-crazy-duper-realistic"@ {
        Some(Preset::SuperUltraCrazyDuperRealistic)
    } else {
        None
    }
}

impl Preset {
    /// A tier by its number or its name.
    pub fn parse(s: &str) -> (r: Option<Preset>)
        ensures
            r == preset(s@),
    {
        if same(s, "0") || same(s, "realistic") {
            Some(Preset::Realistic)
        } else if same(s, "1") || same(s, "hyper-realistic") {
            Some(Preset::HyperRealistic)
        } else if same(s, "2") || same(s, "ultra-realistic") {
            Some(Preset::UltraRealistic)
        } else if same(s, "3") || same(s, "super-ultra-crazy-duper-realistic") {
            Some(Preset::SuperUltraCrazyDuperRealistic)
        } else {
            None
        }
    }
}

pub open spec fn gi_method(s: Seq<char>) -> Option<GiMethod> {
    if s == "restir"@ {
        Some(GiMethod::Restir)
    } else if s == "cascades"@ {
        Some(GiMethod::Cascades)
    } else {
        None
    }
}

impl GiMethod {
    pub fn parse(s: &str) -> (r: Option<GiMethod>)
        ensures
            r == gi_method(s@),
    {
        if same(s, "restir") {
            Some(GiMethod::Restir)
        } else if same(s, "cascades") {
            Some(GiMethod::Cascades)
        } else {
            None
        }
    }
}

/// What no arguments give.
pub open spec fn defaults() -> ArgsModel {
    ArgsModel {
        mode: ModeModel::Window,
        frames: 120,
        exit_after: None,
        size: (1280, 720),
        software: false,
        hud: false,
        debug_view: 0,
        no_beam: false,
        seed: 42,
        world_dir: "worlds/default"@,
        camera: None,
        demo: None,
        quality: Preset::UltraRealistic,
        time: None,
        gi: None,
        creative: false,
        dof: None,
        hide_bodies: false,
        physics_thread: false,
    }
}

impl Default for Args {
    fn default() -> (a: Args)
        ensures
            a@ == defaults(),
    {
        Args {
            mode: Mode::Window,
            frames: 120,
            exit_after: None,
            size: (1280, 720),
            software: false,
            hud: false,
            debug_view: 0,
            no_beam: false,
            seed: 42,
            world_dir: "worlds/default".to_owned(),
            camera: None,
            demo: None,
            quality: Preset::UltraRealistic,
            time: None,
            gi: None,
            creative: false,
            dof: None,
            hide_bodies: false,
            physics_thread: false,
        }
    }
}

/// The indirect light method in use, given the preset's.
pub fn indirect(args: &Args, preset: GiMethod) -> (g: GiMethod)
    ensures
        g == match args.gi {
            Some(gi) => gi,
            None => preset,
        },
{
    match args.gi {
        Some(gi) => gi,
        None => preset,
    }
}

/// Flags that take a value.
pub open spec fn takes_value(flag: Seq<char>) -> bool {
    ||| flag == "--capture"@
    ||| flag == "--frames"@
    ||| flag == "--size"@
    ||| flag == "--seed"@
    ||| flag == "--world"@
    ||| flag == "--demo"@
    ||| flag == "--camera"@
    ||| flag == "--dof"@
    ||| flag == "--time"@
    ||| flag == "--gi"@
    ||| flag == "--quality"@
    ||| flag == "--view"@
}

/// What a flag without a value makes of the arguments so far.
pub open spec fn plain_flag(a: ArgsModel, flag: Seq<char>) -> Result<ArgsModel, ErrorModel> {
    if flag == "--bench"@ {
        Ok(ArgsModel { mode: ModeModel::Bench, ..a })
    } else if flag == "--software"@ {
        Ok(ArgsModel { software: true, ..a })
    } else if flag == "--hud"@ {
        Ok(ArgsModel { hud: true, ..a })
    } else if flag == "--no-beam"@ {
        Ok(ArgsModel { no_beam: true, ..a })
    } else if flag == "--creative"@ {
        Ok(ArgsModel { creative: true, ..a })
    } else if flag == "--hide-bodies"@ {
        Ok(ArgsModel { hide_bodies: true, ..a })
    } else if flag == "--physics-thread"@ {
        Ok(ArgsModel { physics_thread: true, ..a })
    } else if flag == "-h"@ || flag == "--help"@ {
        Err(ErrorModel::Help)
    } else {
        Err(ErrorModel::Unknown(flag))
    }
}

/// Place of the first `x` from `i` on; the length if there is none.
pub open spec fn first_x(s: Seq<char>, i: int) -> int
    decreases s.len() - i,
{
    if i >= s.len() {
        s.len() as int
    } else if s[i] == 'x' {
        i
    } else {
        first_x(s, i + 1)
    }
}

/// A width and a height either side of the first `x`.
pub open spec fn size_of_text(v: Seq<char>) -> Result<(u32, u32), ErrorModel> {
    let x = first_x(v, 0);
    if x >= v.len() {
        Err(ErrorModel::SizeShape)
    } else {
        match number(v.subrange(0, x), u32::MAX as int) {
            Err(e) => Err(ErrorModel::Number("--size width"@, e)),
            Ok(w) => match number(v.subrange(x + 1, v.len() as int), u32::MAX as int) {
                Err(e) => Err(ErrorModel::Number("--size height"@, e)),
                Ok(h) => Ok((w as u32, h as u32)),
            },
        }
    }
}

/// What a flag and its value, which is argument `at`, make of the arguments
/// so far.
pub open spec fn valued_flag(
    a: ArgsModel,
    flag: Seq<char>,
    v: Seq<char>,
    at: int,
    r: Reading,
) -> Result<ArgsModel, ErrorModel> {
    if flag == "--capture"@ {
        Ok(ArgsModel { mode: ModeModel::Capture(v), ..a })
    } else if flag == "--frames"@ {
        match number(v, u32::MAX as int) {
            Ok(n) => Ok(ArgsModel { frames: n as u32, exit_after: Some(n as u32), ..a }),
            Err(e) => Err(ErrorModel::Number(flag, e)),
        }
    } else if flag == "--size"@ {
        match size_of_text(v) {
            Ok(size) => Ok(ArgsModel { size, ..a }),
            Err(e) => Err(e),
        }
    } else if flag == "--seed"@ {
        match number(v, u64::MAX as int) {
            Ok(n) => Ok(ArgsModel { seed: n as u64, ..a }),
            Err(e) => Err(ErrorModel::Number(flag, e)),
        }
    } else if flag == "--world"@ {
        Ok(ArgsModel { world_dir: v, ..a })
    } else if flag == "--demo"@ {
        match Demo::named(v) {
            Some(d) => Ok(ArgsModel { demo: Some(d), ..a }),
            None => Err(ErrorModel::UnknownDemo(v)),
        }
    } else if flag == "--camera"@ {
        match r.list {
            ListRead::Bad(e) => Err(ErrorModel::Decimal(flag, e@)),
            ListRead::Numbers(n) => if n == 6 {
                Ok(ArgsModel { camera: Some(at as usize), ..a })
            } else {
                Err(ErrorModel::CameraShape)
            },
        }
    } else if flag == "--dof"@ {
        match r.list {
            ListRead::Bad(e) => Err(ErrorModel::Decimal(flag, e@)),
            ListRead::Numbers(n) => if n == 2 {
                Ok(ArgsModel { dof: Some(at as usize), ..a })
            } else {
                Err(ErrorModel::LensShape)
            },
        }
    } else if flag == "--time"@ {
        match r.hours {
            HoursRead::Bad(e) => Err(ErrorModel::Decimal(flag, e@)),
            HoursRead::Outside => Err(ErrorModel::TimeRange),
            HoursRead::Fine => Ok(ArgsModel { time: Some(at as usize), ..a }),
        }
    } else if flag == "--gi"@ {
        match gi_method(v) {
            Some(g) => Ok(ArgsModel { gi: Some(g), ..a }),
            None => Err(ErrorModel::UnknownGi(v)),
        }
    } else if flag == "--quality"@ {
        match preset(v) {
            Some(q) => Ok(ArgsModel { quality: q, ..a }),
            None => Err(ErrorModel::UnknownQuality(v)),
        }
    } else {
        match number(v, u32::MAX as int) {
            Ok(n) => Ok(ArgsModel { debug_view: n as u32, ..a }),
            Err(e) => Err(ErrorModel::Number(flag, e)),
        }
    }
}

/// What the arguments from place `i` on make of those so far: the first one
/// that is wrong decides, else each is taken in turn.
pub open spec fn parsed(
    a: ArgsModel,
    args: Seq<String>,
    readings: Seq<Reading>,
    i: int,
) -> Result<ArgsModel, ErrorModel>
    decreases args.len() - i,
{
    if i >= args.len() {
        Ok(a)
    } else if !takes_value(args[i]@) {
        match plain_flag(a, args[i]@) {
            Ok(b) => parsed(b, args, readings, i + 1),
            Err(e) => Err(e),
        }
    } else if i + 1 >= args.len() {
        Err(ErrorModel::NeedsValue(args[i]@))
    } else {
        match valued_flag(a, args[i]@, args[i + 1]@, i + 1, readings[i + 1]) {
            Ok(b) => parsed(b, args, readings, i + 2),
            Err(e) => Err(e),
        }
    }
}

fn wants_value(flag: &str) -> (b: bool)
    ensures
        b == takes_value(flag@),
{
    same(flag, "--capture") || same(flag, "--frames") || same(flag, "--size") || same(
        flag,
        "--seed",
    ) || same(flag, "--world") || same(flag, "--demo") || same(flag, "--camera") || same(
        flag,
        "--dof",
    ) || same(flag, "--time") || same(flag, "--gi") || same(flag, "--quality") || same(flag, "--view")
}

fn take_plain(a: Args, flag: &str) -> (r: Result<Args, CliError>)
    ensures
        match plain_flag(a@, flag@) {
            Ok(b) => r matches Ok(c) && c@ == b,
            Err(e) => r matches Err(f) && f@ == e,
        },
{
    let mut out = a;
    if same(flag, "--bench") {
        out.mode = Mode::Bench;
    } else if same(flag, "--software") {
        out.software = true;
    } else if same(flag, "--hud") {
        out.hud = true;
    } else if same(flag, "--no-beam") {
        out.no_beam = true;
    } else if same(flag, "--creative") {
        out.creative = true;
    } else if same(flag, "--hide-bodies") {
        out.hide_bodies = true;
    } else if same(flag, "--physics-thread") {
        out.physics_thread = true;
    } else if same(flag, "-h") || same(flag, "--help") {
        return Err(CliError::Help);
    } else {
        return Err(CliError::Unknown(flag.to_owned()));
    }
    Ok(out)
}

fn parse_size(v: &str) -> (r: Result<(u32, u32), CliError>)
    ensures
        match size_of_text(v@) {
            Ok(size) => r matches Ok(s) && s == size,
            Err(e) => r matches Err(f) && f@ == e,
        },
{
    let len: usize = v.unicode_len();
    let mut x: usize = 0;
    while x < len && v.get_char(x) != 'x'
        invariant
            len == v@.len(),
            x <= len,
            first_x(v@, 0) == first_x(v@, x as int),
        decreases len - x,
    {
        x += 1;
    }
    if x >= len {
        return Err(CliError::SizeShape);
    }
    let w: u64 = match parse_number(v.substring_char(0, x), u32::MAX as u64) {
        Ok(w) => w,
        Err(e) => {
            return Err(CliError::Number("--size width".to_owned(), e));
        },
    };
    let h: u64 = match parse_number(v.substring_char(x + 1, len), u32::MAX as u64) {
        Ok(h) => h,
        Err(e) => {
            return Err(CliError::Number("--size height".to_owned(), e));
        },
    };
    proof {
        lemma_number(v@.subrange(0, x as int), u32::MAX as int);
        lemma_number(v@.subrange(x + 1, len as int), u32::MAX as int);
    }
    Ok((w as u32, h as u32))
}

proof fn lemma_digits(s: Seq<char>, i: int, n: int, max: int)
    requires
        0 <= i,
        0 <= n <= max,
    ensures
        digits(s, i, n, max) matches Ok(m) ==> 0 <= m <= max,
    decreases s.len() - i,
{
    if i < s.len() && is_digit(s[i]) && n * 10 + (s[i] as int - '0' as int) <= max {
        lemma_digits(s, i + 1, n * 10 + (s[i] as int - '0' as int), max);
    }
}

proof fn lemma_number(s: Seq<char>, max: int)
    requires
        max >= 0,
    ensures
        number(s, max) matches Ok(m) ==> 0 <= m <= max,
{
    lemma_digits(s, 0, 0, max);
    lemma_digits(s, 1, 0, max);
}

fn take_valued(a: Args, flag: &str, v: &str, at: usize, r: &Reading) -> (o: Result<Args, CliError>)
    requires
        takes_value(flag@),
    ensures
        match valued_flag(a@, flag@, v@, at as int, *r) {
            Ok(b) => o matches Ok(c) && c@ == b,
            Err(e) => o matches Err(f) && f@ == e,
        },
{
    let mut out = a;
    proof {
        lemma_number(v@, u32::MAX as int);
        lemma_number(v@, u64::MAX as int);
    }
    if same(flag, "--capture") {
        out.mode = Mode::Capture(v.to_owned());
    } else if same(flag, "--frames") {
        match parse_number(v, u32::MAX as u64) {
            Ok(n) => {
                out.frames = n as u32;
                out.exit_after = Some(n as u32);
            },
            Err(e) => {
                return Err(CliError::Number(flag.to_owned(), e));
            },
        }
    } else if same(flag, "--size") {
        match parse_size(v) {
            Ok(size) => {
                out.size = size;
            },
            Err(e) => {
                return Err(e);
            },
        }
    } else if same(flag, "--seed") {
        match parse_number(v, u64::MAX) {
            Ok(n) => {
                out.seed = n;
            },
            Err(e) => {
                return Err(CliError::Number(flag.to_owned(), e));
            },
        }
    } else if same(flag, "--world") {
        out.world_dir = v.to_owned();
    } else if same(flag, "--demo") {
        match Demo::parse(v) {
            Some(d) => {
                out.demo = Some(d);
            },
            None => {
                return Err(CliError::UnknownDemo(v.to_owned()));
            },
        }
    } else if same(flag, "--camera") {
        match &r.list {
            ListRead::Bad(e) => {
                return Err(CliError::Decimal(flag.to_owned(), e.clone()));
            },
            ListRead::Numbers(n) => {
                if *n != 6 {
                    return Err(CliError::CameraShape);
                }
                out.camera = Some(at);
            },
        }
    } else if same(flag, "--dof") {
        match &r.list {
            ListRead::Bad(e) => {
                return Err(CliError::Decimal(flag.to_owned(), e.clone()));
            },
            ListRead::Numbers(n) => {
                if *n != 2 {
                    return Err(CliError::LensShape);
                }
                out.dof = Some(at);
            },
        }
    } else if same(flag, "--time") {
        match &r.hours {
            HoursRead::Bad(e) => {
                return Err(CliError::Decimal(flag.to_owned(), e.clone()));
            },
            HoursRead::Outside => {
                return Err(CliError::TimeRange);
            },
            HoursRead::Fine => {
                out.time = Some(at);
            },
        }
    } else if same(flag, "--gi") {
        match GiMethod::parse(v) {
            Some(g) => {
                out.gi = Some(g);
            },
            None => {
                return Err(CliError::UnknownGi(v.to_owned()));
            },
        }
    } else if same(flag, "--quality") {
        match Preset::parse(v) {
            Some(q) => {
                out.quality = q;
            },
            None => {
                return Err(CliError::UnknownQuality(v.to_owned()));
            },
        }
    } else {
        match parse_number(v, u32::MAX as u64) {
            Ok(n) => {
                out.debug_view = n as u32;
            },
            Err(e) => {
                return Err(CliError::Number(flag.to_owned(), e));
            },
        }
    }
    Ok(out)
}

/// Reads the command line. `readings[i]` is what argument `i` is as a decimal.
pub fn parse(args: &Vec<String>, readings: &Vec<Reading>) -> (r: Result<Args, CliError>)
    requires
        args@.len() == readings@.len(),
    ensures
        match parsed(defaults(), args@, readings@, 0) {
            Ok(a) => r matches Ok(b) && b@ == a,
            Err(e) => r matches Err(f) && f@ == e,
        },
{
    let mut out = Args::default();
    let mut i: usize = 0;
    let len: usize = args.len();
    while i < len
        invariant
            len == args@.len() == readings@.len(),
            i <= len,
            parsed(defaults(), args@, readings@, 0) == parsed(out@, args@, readings@, i as int),
        decreases len - i,
    {
        let flag: &str = args[i].as_str();
        if !wants_value(flag) {
            match take_plain(out, flag) {
                Ok(a) => {
                    out = a;
                },
                Err(e) => {
                    return Err(e);
                },
            }
            i += 1;
        } else {
            if i + 1 >= len {
                return Err(CliError::NeedsValue(flag.to_owned()));
            }
            match take_valued(out, flag, args[i + 1].as_str(), i + 1, &readings[i + 1]) {
                Ok(a) => {
                    out = a;
                },
                Err(e) => {
                    return Err(e);
                },
            }
            i += 2;
        }
    }
    Ok(out)
}

pub open spec fn number_text(e: NumberError) -> Seq<char> {
    match e {
        NumberError::Empty => "cannot parse integer from empty string"@,
        NumberError::InvalidDigit => "invalid digit found in string"@,
        NumberError::TooLarge => "number too large to fit in target type"@,
    }
}

/// What is said of an error, `usage` being how to use the program.
pub open spec fn error_text(e: ErrorModel, usage: Seq<char>) -> Seq<char> {
    match e {
        ErrorModel::NeedsValue(f) => f + " needs a value"@,
        ErrorModel::Number(f, e) => f + ": "@ + number_text(e),
        ErrorModel::Decimal(f, e) => f + ": "@ + e,
        ErrorModel::SizeShape => "--size expects WxH"@,
        ErrorModel::CameraShape => "--camera expects x,y,z,look_x,look_y,look_z"@,
        ErrorModel::LensShape => "--dof expects focus_m,f_number"@,
        ErrorModel::TimeRange => "--time expects hours in 0..=24"@,
        ErrorModel::UnknownDemo(n) => "unknown demo `"@ + n + "`"@,
        ErrorModel::UnknownGi(n) => "unknown indirect method `"@ + n + "`"@,
        ErrorModel::UnknownQuality(n) => "unknown quality `"@ + n + "`"@,
        ErrorModel::Help => usage,
        ErrorModel::Unknown(a) => "unknown argument `"@ + a + "`\n"@ + usage,
    }
}

fn joined(a: &str, b: &str, c: &str) -> (s: String)
    ensures
        s@ == a@ + b@ + c@,
{
    let mut s: String = a.to_owned();
    s.append(b);
    s.append(c);
    s
}

impl CliError {
    pub fn message(&self, usage: &str) -> (s: String)
        ensures
            s@ == error_text(self@, usage@),
    {
        match self {
            CliError::NeedsValue(f) => {
                let mut s: String = f.clone();
                s.append(" needs a value");
                s
            },
            CliError::Number(f, e) => joined(
                f.as_str(),
                ": ",
                match e {
                    NumberError::Empty => "cannot parse integer from empty string",
                    NumberError::InvalidDigit => "invalid digit found in string",
                    NumberError::TooLarge => "number too large to fit in target type",
                },
            ),
            CliError::Decimal(f, e) => joined(f.as_str(), ": ", e.as_str()),
            CliError::SizeShape => "--size expects WxH".to_owned(),
            CliError::CameraShape => "--camera expects x,y,z,look_x,look_y,look_z".to_owned(),
            CliError::LensShape => "--dof expects focus_m,f_number".to_owned(),
            CliError::TimeRange => "--time expects hours in 0..=24".to_owned(),
            CliError::UnknownDemo(n) => joined("unknown demo `", n.as_str(), "`"),
            CliError::UnknownGi(n) => joined("unknown indirect method `", n.as_str(), "`"),
            CliError::UnknownQuality(n) => joined("unknown quality `", n.as_str(), "`"),
            CliError::Help => usage.to_owned(),
            CliError::Unknown(a) => {
                let mut s: String = joined("unknown argument `", a.as_str(), "`\n");
                s.append(usage);
                s
            },
        }
    }
}

/// Flags that stand alone leave everything else as it was, so their order
/// does not matter.
pub proof fn switches_commute(a: ArgsModel)
    ensures
        ({
            let s = "--software"@;
            let h = "--hud"@;
            let n = "--no-beam"@;
            &&& plain_flag(plain_flag(a, s)->Ok_0, h) == plain_flag(plain_flag(a, h)->Ok_0, s)
            &&& plain_flag(plain_flag(a, s)->Ok_0, n) == plain_flag(plain_flag(a, n)->Ok_0, s)
            &&& plain_flag(plain_flag(a, h)->Ok_0, n) == plain_flag(plain_flag(a, n)->Ok_0, h)
        }),
{
    reveal_strlit("--software");
    reveal_strlit("--hud");
    reveal_strlit("--no-beam");
    reveal_strlit("--bench");
    assert("--software"@[2] != "--hud"@[2]);
    assert("--software"@[2] != "--no-beam"@[2]);
    assert("--hud"@[2] != "--no-beam"@[2]);
    assert("--bench"@[2] == 'b');
}

/// What digits are worth in base ten.
pub open spec fn decimal(s: Seq<char>) -> int
    decreases s.len(),
{
    if s.len() == 0 {
        0
    } else {
        10 * decimal(s.drop_last()) + (s.last() as int - '0' as int)
    }
}

pub open spec fn all_digits(s: Seq<char>) -> bool {
    forall|i: int| 0 <= i < s.len() ==> '0' <= #[trigger] s[i] <= '9'
}

proof fn lemma_decimal(s: Seq<char>, i: int)
    requires
        all_digits(s),
        0 <= i <= s.len(),
    ensures
        0 <= decimal(s.take(i)) <= decimal(s),
        i < s.len() ==> decimal(s.take(i + 1)) == 10 * decimal(s.take(i)) + (s[i] as int
            - '0' as int),
    decreases s.len() - i,
{
    if i < s.len() {
        assert(s.take(i + 1).drop_last() == s.take(i));
        lemma_decimal(s, i + 1);
        lemma_decimal_low(s.take(i));
    } else {
        assert(s.take(i) == s);
        lemma_decimal_low(s);
    }
}

proof fn lemma_decimal_low(s: Seq<char>)
    requires
        all_digits(s),
    ensures
        decimal(s) >= 0,
    decreases s.len(),
{
    if s.len() > 0 {
        lemma_decimal_low(s.drop_last());
    }
}

proof fn lemma_reads(s: Seq<char>, from: int, i: int, max: int)
    requires
        0 <= from <= i <= s.len(),
        all_digits(s.skip(from)),
        decimal(s.skip(from).take(i - from)) <= max,
    ensures
        digits(s, i, decimal(s.skip(from).take(i - from)), max) == if decimal(s.skip(from))
            <= max {
            Ok::<int, NumberError>(decimal(s.skip(from)))
        } else {
            Err(NumberError::TooLarge)
        },
    decreases s.len() - i,
{
    let t = s.skip(from);
    lemma_decimal(t, i - from);
    if i < s.len() {
        assert(t[i - from] == s[i]);
        lemma_decimal(t, i - from + 1);
        if decimal(t.take(i + 1 - from)) <= max {
            lemma_reads(s, from, i + 1, max);
        }
    } else {
        assert(t.take(i - from) == t);
    }
}

/// Digits are read in base ten, with or without a plus before them, and are too
/// large exactly when what they are worth is more than the most.
pub proof fn digits_are_read_in_base_ten(s: Seq<char>, max: int)
    requires
        s.len() > 0,
        all_digits(s),
        max >= 0,
    ensures
        decimal(s) <= max ==> number(s, max) == Ok::<int, NumberError>(decimal(s)) && number(
            seq!['+'] + s,
            max,
        ) == Ok::<int, NumberError>(decimal(s)),
        decimal(s) > max ==> number(s, max) == Err::<int, NumberError>(NumberError::TooLarge)
            && number(seq!['+'] + s, max) == Err::<int, NumberError>(NumberError::TooLarge),
{
    let p = seq!['+'] + s;
    assert(s.skip(0) == s);
    assert(p.skip(1) == s);
    assert(s.take(0).len() == 0);
    assert('0' <= s[0]);
    lemma_reads(s, 0, 0, max);
    lemma_reads(p, 1, 1, max);
}

/// A text with a character that is neither a digit nor a leading plus is no
/// number, and neither is an empty one.
pub proof fn other_texts_are_no_numbers(s: Seq<char>, i: int, max: int)
    requires
        0 <= i < s.len(),
        s[i] < '0' || s[i] > '9',
        s[i] != '+' || i > 0 || s.len() == 1,
    ensures
        number(s, max) is Err,
        number(Seq::empty(), max) == Err::<int, NumberError>(NumberError::Empty),
{
    if s[0] == '+' {
        if i > 0 {
            lemma_stops(s, 1, 0, max, i);
        }
    } else {
        lemma_stops(s, 0, 0, max, i);
    }
}

proof fn lemma_stops(s: Seq<char>, from: int, n: int, max: int, i: int)
    requires
        0 <= from <= i < s.len(),
        s[i] < '0' || s[i] > '9',
    ensures
        digits(s, from, n, max) is Err,
    decreases i - from,
{
    if from < i {
        lemma_stops(s, from + 1, n * 10 + (s[from] as int - '0' as int), max, i);
    }
}

/// A size is a width, an `x` and a height, the width holding no other `x`.
pub proof fn sizes_are_width_by_height(w: Seq<char>, h: Seq<char>)
    requires
        forall|i: int| 0 <= i < w.len() ==> #[trigger] w[i] != 'x',
    ensures
        ({
            let r = size_of_text(w + seq!['x'] + h);
            match (number(w, 0xffff_ffff), number(h, 0xffff_ffff)) {
                (Ok(a), Ok(b)) => r == Ok::<(u32, u32), ErrorModel>((a as u32, b as u32)),
                (Err(e), _) => r == Err::<(u32, u32), ErrorModel>(
                    ErrorModel::Number("--size width"@, e),
                ),
                (_, Err(e)) => r == Err::<(u32, u32), ErrorModel>(
                    ErrorModel::Number("--size height"@, e),
                ),
            }
        }),
        size_of_text(w) == Err::<(u32, u32), ErrorModel>(ErrorModel::SizeShape),
{
    let v = w + seq!['x'] + h;
    lemma_first_x(v, 0, w.len() as int);
    lemma_first_x(w, 0, w.len() as int);
    assert(v.subrange(0, w.len() as int) == w);
    assert(v.subrange(w.len() as int + 1, v.len() as int) == h);
}

proof fn lemma_first_x(v: Seq<char>, i: int, x: int)
    requires
        0 <= i <= x <= v.len(),
        forall|j: int| i <= j < x ==> #[trigger] v[j] != 'x',
        x < v.len() ==> v[x] == 'x',
    ensures
        first_x(v, i) == x,
    decreases x - i,
{
    if i < x {
        lemma_first_x(v, i + 1, x);
    }
}

/// Letters by which the flags differ.
proof fn lemma_flags()
    ensures
        "--capture"@.len() == 9 && "--capture"@[0] == '-' && "--capture"@[2] == 'c' && "--capture"@[3] == 'a' && "--capture"@[4] == 'p',
        "--frames"@.len() == 8 && "--frames"@[0] == '-' && "--frames"@[2] == 'f' && "--frames"@[3] == 'r' && "--frames"@[4] == 'a',
        "--size"@.len() == 6 && "--size"@[0] == '-' && "--size"@[2] == 's' && "--size"@[3] == 'i' && "--size"@[4] == 'z',
        "--seed"@.len() == 6 && "--seed"@[0] == '-' && "--seed"@[2] == 's' && "--seed"@[3] == 'e' && "--seed"@[4] == 'e',
        "--world"@.len() == 7 && "--world"@[0] == '-' && "--world"@[2] == 'w' && "--world"@[3] == 'o' && "--world"@[4] == 'r',
        "--demo"@.len() == 6 && "--demo"@[0] == '-' && "--demo"@[2] == 'd' && "--demo"@[3] == 'e' && "--demo"@[4] == 'm',
        "--camera"@.len() == 8 && "--camera"@[0] == '-' && "--camera"@[2] == 'c' && "--camera"@[3] == 'a' && "--camera"@[4] == 'm',
        "--dof"@.len() == 5 && "--dof"@[0] == '-' && "--dof"@[2] == 'd' && "--dof"@[3] == 'o' && "--dof"@[4] == 'f',
        "--time"@.len() == 6 && "--time"@[0] == '-' && "--time"@[2] == 't' && "--time"@[3] == 'i' && "--time"@[4] == 'm',
        "--gi"@.len() == 4 && "--gi"@[0] == '-' && "--gi"@[2] == 'g' && "--gi"@[3] == 'i',
        "--quality"@.len() == 9 && "--quality"@[0] == '-' && "--quality"@[2] == 'q' && "--quality"@[3] == 'u' && "--quality"@[4] == 'a',
        "--view"@.len() == 6 && "--view"@[0] == '-' && "--view"@[2] == 'v' && "--view"@[3] == 'i' && "--view"@[4] == 'e',
        "--bench"@.len() == 7 && "--bench"@[0] == '-' && "--bench"@[2] == 'b' && "--bench"@[3] == 'e' && "--bench"@[4] == 'n',
        "--software"@.len() == 10 && "--software"@[0] == '-' && "--software"@[2] == 's' && "--software"@[3] == 'o' && "--software"@[4] == 'f',
        "--hud"@.len() == 5 && "--hud"@[0] == '-' && "--hud"@[2] == 'h' && "--hud"@[3] == 'u' && "--hud"@[4] == 'd',
        "--no-beam"@.len() == 9 && "--no-beam"@[0] == '-' && "--no-beam"@[2] == 'n' && "--no-beam"@[3] == 'o' && "--no-beam"@[4] == '-',
        "--creative"@.len() == 10 && "--creative"@[0] == '-' && "--creative"@[2] == 'c' && "--creative"@[3] == 'r' && "--creative"@[4] == 'e',
        "--hide-bodies"@.len() == 13 && "--hide-bodies"@[0] == '-' && "--hide-bodies"@[2] == 'h' && "--hide-bodies"@[3] == 'i' && "--hide-bodies"@[4] == 'd',
        "--physics-thread"@.len() == 16 && "--physics-thread"@[0] == '-' && "--physics-thread"@[2] == 'p' && "--physics-thread"@[3] == 'h' && "--physics-thread"@[4] == 'y',
        "-h"@.len() == 2 && "-h"@[0] == '-',
        "--help"@.len() == 6 && "--help"@[0] == '-' && "--help"@[2] == 'h' && "--help"@[3] == 'e' && "--help"@[4] == 'l',
{
    reveal_strlit("--capture");
    reveal_strlit("--frames");
    reveal_strlit("--size");
    reveal_strlit("--seed");
    reveal_strlit("--world");
    reveal_strlit("--demo");
    reveal_strlit("--camera");
    reveal_strlit("--dof");
    reveal_strlit("--time");
    reveal_strlit("--gi");
    reveal_strlit("--quality");
    reveal_strlit("--view");
    reveal_strlit("--bench");
    reveal_strlit("--software");
    reveal_strlit("--hud");
    reveal_strlit("--no-beam");
    reveal_strlit("--creative");
    reveal_strlit("--hide-bodies");
    reveal_strlit("--physics-thread");
    reveal_strlit("-h");
    reveal_strlit("--help");
}

/// Letters by which the indirect light methods differ.
proof fn lemma_methods()
    ensures
        "restir"@.len() == 6 && "restir"@[0] == 'r' && "restir"@[2] == 's' && "restir"@[3] == 't' && "restir"@[4] == 'i',
        "cascades"@.len() == 8 && "cascades"@[0] == 'c' && "cascades"@[2] == 's' && "cascades"@[3] == 'c' && "cascades"@[4] == 'a',
{
    reveal_strlit("restir");
    reveal_strlit("cascades");
}

/// Letters by which the tiers' names differ.
proof fn lemma_tiers()
    ensures
        "0"@.len() == 1 && "0"@[0] == '0',
        "1"@.len() == 1 && "1"@[0] == '1',
        "2"@.len() == 1 && "2"@[0] == '2',
        "3"@.len() == 1 && "3"@[0] == '3',
        "realistic"@.len() == 9 && "realistic"@[0] == 'r' && "realistic"@[2] == 'a' && "realistic"@[3] == 'l' && "realistic"@[4] == 'i',
        "hyper-realistic"@.len() == 15 && "hyper-realistic"@[0] == 'h' && "hyper-realistic"@[2] == 'p' && "hyper-realistic"@[3] == 'e' && "hyper-realistic"@[4] == 'r',
        "ultra-realistic"@.len() == 15 && "ultra-realistic"@[0] == 'u' && "ultra-realistic"@[2] == 't' && "ultra-realistic"@[3] == 'r' && "ultra-realistic"@[4] == 'a',
        "super-ultra-crazy-duper-realistic"@.len() == 33 && "super-ultra-crazy-duper-realistic"@[0] == 's' && "super-ultra-crazy-duper-realistic"@[2] == 'p' && "super-ultra-crazy-duper-realistic"@[3] == 'e' && "super-ultra-crazy-duper-realistic"@[4] == 'r',
{
    reveal_strlit("0");
    reveal_strlit("1");
    reveal_strlit("2");
    reveal_strlit("3");
    reveal_strlit("realistic");
    reveal_strlit("hyper-realistic");
    reveal_strlit("ultra-realistic");
    reveal_strlit("super-ultra-crazy-duper-realistic");
}

/// Each flag that stands alone sets what it is named for and nothing else.
pub proof fn switches_set_one_thing(a: ArgsModel)
    ensures
        plain_flag(a, "--bench"@) == Ok::<ArgsModel, ErrorModel>(
            ArgsModel { mode: ModeModel::Bench, ..a },
        ),
        plain_flag(a, "--software"@) == Ok::<ArgsModel, ErrorModel>(
            ArgsModel { software: true, ..a },
        ),
        plain_flag(a, "--hud"@) == Ok::<ArgsModel, ErrorModel>(ArgsModel { hud: true, ..a }),
        plain_flag(a, "--no-beam"@) == Ok::<ArgsModel, ErrorModel>(
            ArgsModel { no_beam: true, ..a },
        ),
        plain_flag(a, "--creative"@) == Ok::<ArgsModel, ErrorModel>(
            ArgsModel { creative: true, ..a },
        ),
        plain_flag(a, "--hide-bodies"@) == Ok::<ArgsModel, ErrorModel>(
            ArgsModel { hide_bodies: true, ..a },
        ),
        plain_flag(a, "--physics-thread"@) == Ok::<ArgsModel, ErrorModel>(
            ArgsModel { physics_thread: true, ..a },
        ),
        plain_flag(a, "-h"@) == Err::<ArgsModel, ErrorModel>(ErrorModel::Help),
        plain_flag(a, "--help"@) == Err::<ArgsModel, ErrorModel>(ErrorModel::Help),
{
    lemma_flags();
}

/// Each flag with a value that fits sets what it is named for and nothing else;
/// a number of frames also ends the program after them.
pub proof fn valued_flags_set_one_thing(
    a: ArgsModel,
    v: Seq<char>,
    at: usize,
    r: Reading,
    n: int,
)
    ensures
        valued_flag(a, "--capture"@, v, at as int, r) == Ok::<ArgsModel, ErrorModel>(
            ArgsModel { mode: ModeModel::Capture(v), ..a },
        ),
        valued_flag(a, "--world"@, v, at as int, r) == Ok::<ArgsModel, ErrorModel>(
            ArgsModel { world_dir: v, ..a },
        ),
        number(v, 0xffff_ffff) == Ok::<int, NumberError>(n) ==> valued_flag(
            a,
            "--frames"@,
            v,
            at as int,
            r,
        ) == Ok::<ArgsModel, ErrorModel>(
            ArgsModel { frames: n as u32, exit_after: Some(n as u32), ..a },
        ) && valued_flag(a, "--view"@, v, at as int, r) == Ok::<ArgsModel, ErrorModel>(
            ArgsModel { debug_view: n as u32, ..a },
        ),
        number(v, 0xffff_ffff_ffff_ffff) == Ok::<int, NumberError>(n) ==> valued_flag(
            a,
            "--seed"@,
            v,
            at as int,
            r,
        ) == Ok::<ArgsModel, ErrorModel>(ArgsModel { seed: n as u64, ..a }),
        r.list == ListRead::Numbers(6) ==> valued_flag(a, "--camera"@, v, at as int, r) == Ok::<
            ArgsModel,
            ErrorModel,
        >(ArgsModel { camera: Some(at), ..a }),
        r.list == ListRead::Numbers(2) ==> valued_flag(a, "--dof"@, v, at as int, r) == Ok::<
            ArgsModel,
            ErrorModel,
        >(ArgsModel { dof: Some(at), ..a }),
        r.hours is Fine ==> valued_flag(a, "--time"@, v, at as int, r) == Ok::<
            ArgsModel,
            ErrorModel,
        >(ArgsModel { time: Some(at), ..a }),
        r.list is Numbers && r.list->Numbers_0 != 6 ==> valued_flag(
            a,
            "--camera"@,
            v,
            at as int,
            r,
        ) == Err::<ArgsModel, ErrorModel>(ErrorModel::CameraShape),
        r.list is Numbers && r.list->Numbers_0 != 2 ==> valued_flag(a, "--dof"@, v, at as int, r)
            == Err::<ArgsModel, ErrorModel>(ErrorModel::LensShape),
        r.hours is Outside ==> valued_flag(a, "--time"@, v, at as int, r) == Err::<
            ArgsModel,
            ErrorModel,
        >(ErrorModel::TimeRange),
        valued_flag(a, "--gi"@, "restir"@, at as int, r) == Ok::<ArgsModel, ErrorModel>(
            ArgsModel { gi: Some(GiMethod::Restir), ..a },
        ),
        valued_flag(a, "--gi"@, "cascades"@, at as int, r) == Ok::<ArgsModel, ErrorModel>(
            ArgsModel { gi: Some(GiMethod::Cascades), ..a },
        ),
{
    lemma_flags();
    lemma_methods();
}

/// Tiers go by their number or their name, and nothing else is one.
pub proof fn tiers_go_by_number_or_name(s: Seq<char>)
    ensures
        preset("0"@) == Some(Preset::Realistic),
        preset("realistic"@) == Some(Preset::Realistic),
        preset("1"@) == Some(Preset::HyperRealistic),
        preset("hyper-realistic"@) == Some(Preset::HyperRealistic),
        preset("2"@) == Some(Preset::UltraRealistic),
        preset("ultra-realistic"@) == Some(Preset::UltraRealistic),
        preset("3"@) == Some(Preset::SuperUltraCrazyDuperRealistic),
        preset("super-ultra-crazy-duper-realistic"@) == Some(Preset::SuperUltraCrazyDuperRealistic),
        s.len() == 1 && preset(s) is Some ==> '0' <= s[0] <= '3',
        preset(Seq::empty()) is None,
{
    lemma_tiers();
}

/// The arguments are taken in turn: the first of them, and its value where it
/// takes one, change what the rest start from, and an error ends it.
pub proof fn arguments_are_taken_in_turn(a: ArgsModel, args: Seq<String>, readings: Seq<Reading>)
    requires
        args.len() >= 1,
    ensures
        args[0]@ == "--software"@ ==> parsed(a, args, readings, 0) == parsed(
            ArgsModel { software: true, ..a },
            args,
            readings,
            1,
        ),
        args[0]@ == "--world"@ && args.len() >= 2 ==> parsed(a, args, readings, 0) == parsed(
            ArgsModel { world_dir: args[1]@, ..a },
            args,
            readings,
            2,
        ),
        args[0]@ == "--world"@ && args.len() == 1 ==> parsed(a, args, readings, 0) == Err::<
            ArgsModel,
            ErrorModel,
        >(ErrorModel::NeedsValue("--world"@)),
        args[0]@ == "--help"@ ==> parsed(a, args, readings, 0) == Err::<ArgsModel, ErrorModel>(
            ErrorModel::Help,
        ),
{
    lemma_flags();
}

/// Every flag but the switches and the two that ask for help takes a value.
pub proof fn these_flags_take_a_value()
    ensures
        takes_value("--capture"@),
        takes_value("--frames"@),
        takes_value("--size"@),
        takes_value("--seed"@),
        takes_value("--world"@),
        takes_value("--demo"@),
        takes_value("--camera"@),
        takes_value("--dof"@),
        takes_value("--time"@),
        takes_value("--gi"@),
        takes_value("--quality"@),
        takes_value("--view"@),
        !takes_value("--bench"@),
        !takes_value("--software"@),
        !takes_value("--hud"@),
        !takes_value("--no-beam"@),
        !takes_value("--creative"@),
        !takes_value("--hide-bodies"@),
        !takes_value("--physics-thread"@),
        !takes_value("-h"@),
        !takes_value("--help"@),
{
    lemma_flags();
}

/// Without arguments a window of 1280 by 720 opens on world 42, in survival,
/// at the third tier, with nothing hidden, traced or scripted.
pub proof fn no_arguments_open_a_window(readings: Seq<Reading>)
    ensures
        ({
            let a = parsed(defaults(), Seq::empty(), readings, 0);
            &&& a is Ok
            &&& a->Ok_0.mode is Window && a->Ok_0.size.0 == 1280 && a->Ok_0.size.1 == 720
            &&& a->Ok_0.frames == 120 && a->Ok_0.exit_after is None && a->Ok_0.seed == 42
            &&& a->Ok_0.quality is UltraRealistic && a->Ok_0.world_dir == "worlds/default"@
            &&& !a->Ok_0.software && !a->Ok_0.hud && !a->Ok_0.no_beam && !a->Ok_0.creative
                && !a->Ok_0.hide_bodies && !a->Ok_0.physics_thread && a->Ok_0.debug_view == 0
            &&& a->Ok_0.camera is None && a->Ok_0.demo is None && a->Ok_0.time is None && a->Ok_0.gi
                is None && a->Ok_0.dof is None
        }),
{
}

} // verus!
