//! How a sheep lives: walking, falling, climbing, meeting others and being
//! carried about.

use hyprsheep::anim::{Only, Pet, Situation};
use hyprsheep::dice::Dice;
use hyprsheep::expr::Ctx;
use hyprsheep::number::Number;
use hyprsheep::sheep::{Event, Sheep, TOSS_MAX};
use hyprsheep::step::{DRAG_INTERVAL, POINTER_REACH};
use hyprsheep::world::{Rect, Screen, World};

/// The machine's own floating-point numbers.
#[derive(Clone, Copy, Debug, PartialEq)]
struct F(f64);

impl Number for F {
    fn whole(i: i64) -> Self {
        F(i as f64)
    }
    fn read(text: &str) -> Option<Self> {
        text.parse::<f64>().ok().map(F)
    }
    fn least() -> Self {
        F(f64::MIN_POSITIVE)
    }
    fn toss_keep() -> Self {
        F(0.7f64.powf(0.025))
    }
    fn plus(self, other: Self) -> Self {
        F(self.0 + other.0)
    }
    fn minus(self, other: Self) -> Self {
        F(self.0 - other.0)
    }
    fn times(self, other: Self) -> Self {
        F(self.0 * other.0)
    }
    fn over(self, other: Self) -> Self {
        F(self.0 / other.0)
    }
    fn modulo(self, other: Self) -> Self {
        F(self.0 % other.0)
    }
    fn hypot(self, other: Self) -> Self {
        F(self.0.hypot(other.0))
    }
    fn negated(self) -> Self {
        F(-self.0)
    }
    fn magnitude(self) -> Self {
        F(self.0.abs())
    }
    fn sign(self) -> Self {
        F(self.0.signum())
    }
    fn trunc(self) -> Self {
        F(self.0.trunc())
    }
    fn ceil(self) -> Self {
        F(self.0.ceil())
    }
    fn round(self) -> Self {
        F(self.0.round())
    }
    fn below(self, other: Self) -> bool {
        self.0 < other.0
    }
    fn at_most(self, other: Self) -> bool {
        self.0 <= other.0
    }
    fn same(self, other: Self) -> bool {
        self.0 == other.0
    }
    fn rank(self) -> i64 {
        let bits = self.0.to_bits() as i64;
        bits ^ (((bits >> 63) as u64) >> 1) as i64
    }
    fn finite(self) -> bool {
        self.0.is_finite()
    }
    fn to_u64(self) -> u64 {
        self.0 as u64
    }
    fn to_i64(self) -> i64 {
        self.0 as i64
    }
}

impl F {
    fn abs(self) -> F {
        F(self.0.abs())
    }
    fn is_finite(self) -> bool {
        self.0.is_finite()
    }
    fn min(self, other: F) -> F {
        F(self.0.min(other.0))
    }
    fn max(self, other: F) -> F {
        F(self.0.max(other.0))
    }
}

impl PartialOrd for F {
    fn partial_cmp(&self, other: &F) -> Option<std::cmp::Ordering> {
        self.0.partial_cmp(&other.0)
    }
}

impl std::fmt::Display for F {
    fn fmt(&self, f: &mut std::fmt::Formatter<'_>) -> std::fmt::Result {
        self.0.fmt(f)
    }
}

impl std::ops::Add for F {
    type Output = F;
    fn add(self, other: F) -> F {
        F(self.0 + other.0)
    }
}

impl std::ops::AddAssign for F {
    fn add_assign(&mut self, other: F) {
        self.0 += other.0;
    }
}

impl std::ops::Sub for F {
    type Output = F;
    fn sub(self, other: F) -> F {
        F(self.0 - other.0)
    }
}

impl std::ops::Mul for F {
    type Output = F;
    fn mul(self, other: F) -> F {
        F(self.0 * other.0)
    }
}

impl std::ops::Div for F {
    type Output = F;
    fn div(self, other: F) -> F {
        F(self.0 / other.0)
    }
}

impl std::ops::Neg for F {
    type Output = F;
    fn neg(self) -> F {
        F(-self.0)
    }
}

const TILE: F = F(40.0);

/// A small flock's worth of behaviour: enough animations to walk, fall,
/// climb, sleep, bathe, eat, be abducted and meet a black sheep.
const XML: &str = r#"<?xml version="1.0" encoding="utf-8"?>
<animations xmlns="https://esheep.petrucci.ch/">
  <image><tilesx>16</tilesx><tilesy>11</tilesy><png><![CDATA[ ]]></png></image>
  <spawns>
    <spawn id="1" probability="50"><x>random*(screenW-imageW-50)/100+25</x><y>-imageH</y><next probability="100">5</next></spawn>
    <spawn id="2" probability="50"><x>screenW+10</x><y>areaH-imageH</y><next probability="100">1</next></spawn>
    <spawn id="3" probability="3"><x>screenW+10</x><y>areaH/2-(randS*areaH/2)/120-imageH</y><next probability="100">21</next></spawn>
    <spawn id="4" probability="3"><x>screenW</x><y>areaH-imageH</y><next probability="100">28</next></spawn>
  </spawns>
  <animations>
    <animation id="1">
      <name>walk</name>
      <start><x>-2</x><y>0</y><interval>200</interval></start>
      <end><x>-2</x><y>0</y><interval>200</interval></end>
      <sequence repeat="20" repeatfrom="0"><frame>2</frame><frame>3</frame><next probability="100" only="none">1</next><next probability="20" only="none">6</next><next probability="10" only="none">7</next><next probability="5" only="taskbar">26</next><next probability="30" only="window">15</next></sequence>
      <border><next probability="100" only="none">2</next><next probability="60" only="vertical">37</next></border>
      <gravity><next probability="100" only="none">5</next></gravity>
    </animation>
    <animation id="2">
      <name>turn</name>
      <start><x>0</x><y>0</y><interval>100</interval></start>
      <end><x>0</x><y>0</y><interval>100</interval></end>
      <sequence><frame>3</frame><next probability="100" only="none">1</next><action>flip</action></sequence>
    </animation>
    <animation id="3">
      <name>dream1</name>
      <start><x>0</x><y>0</y><interval>100</interval></start>
      <end><x>0</x><y>0</y><interval>100</interval></end>
      <sequence><frame>80</frame><next probability="100" only="none">8</next></sequence>
    </animation>
    <animation id="4">
      <name>drag</name>
      <start><x>0</x><y>0</y><interval>50</interval></start>
      <end><x>0</x><y>0</y><interval>50</interval></end>
      <sequence repeat="1"><frame>42</frame><frame>43</frame><next probability="100" only="none">5</next></sequence>
    </animation>
    <animation id="5">
      <name>fall</name>
      <start><x>0</x><y>1</y><interval>40</interval></start>
      <end><x>0</x><y>10</y><interval>40</interval></end>
      <sequence repeat="20"><frame>133</frame><next probability="100" only="none">5</next></sequence>
      <border><next probability="100" only="none">1</next></border>
    </animation>
    <animation id="6">
      <name>look</name>
      <start><x>0</x><y>0</y><interval>200</interval></start>
      <end><x>0</x><y>0</y><interval>200</interval></end>
      <sequence><frame>6</frame><frame>7</frame><frame>8</frame><frame>6</frame><next probability="100" only="none">1</next></sequence>
      <gravity><next probability="100" only="none">5</next></gravity>
    </animation>
    <animation id="7">
      <name>yawn</name>
      <start><x>0</x><y>0</y><interval>200</interval></start>
      <end><x>0</x><y>0</y><interval>200</interval></end>
      <sequence><frame>31</frame><frame>107</frame><frame>31</frame><next probability="100" only="none">1</next></sequence>
      <gravity><next probability="100" only="none">5</next></gravity>
    </animation>
    <animation id="8">
      <name>dream2</name>
      <start><x>0</x><y>0</y><interval>100</interval></start>
      <end><x>0</x><y>0</y><interval>100</interval></end>
      <sequence><frame>81</frame><next probability="100" only="none">9</next></sequence>
    </animation>
    <animation id="9">
      <name>dream3</name>
      <start><x>0</x><y>0</y><interval>100</interval></start>
      <end><x>0</x><y>0</y><interval>100</interval></end>
      <sequence><frame>82</frame><next probability="100" only="none">10</next></sequence>
    </animation>
    <animation id="10">
      <name>dream4</name>
      <start><x>0</x><y>0</y><interval>100</interval></start>
      <end><x>0</x><y>0</y><interval>100</interval></end>
      <sequence><frame>83</frame><next probability="100" only="none">11</next></sequence>
    </animation>
    <animation id="11">
      <name>dream5</name>
      <start><x>0</x><y>0</y><interval>100</interval></start>
      <end><x>0</x><y>0</y><interval>100</interval></end>
      <sequence><frame>84</frame><next probability="100" only="none">12</next></sequence>
    </animation>
    <animation id="12">
      <name>dream6</name>
      <start><x>0</x><y>0</y><interval>100</interval></start>
      <end><x>0</x><y>0</y><interval>100</interval></end>
      <sequence><frame>85</frame><next probability="100" only="none">13</next></sequence>
    </animation>
    <animation id="13">
      <name>dream7</name>
      <start><x>0</x><y>0</y><interval>100</interval></start>
      <end><x>0</x><y>0</y><interval>100</interval></end>
      <sequence><frame>86</frame><next probability="100" only="none">14</next></sequence>
    </animation>
    <animation id="14">
      <name>dream8</name>
      <start><x>0</x><y>0</y><interval>100</interval></start>
      <end><x>0</x><y>0</y><interval>100</interval></end>
      <sequence><frame>87</frame><next probability="100" only="none">18</next></sequence>
    </animation>
    <animation id="15">
      <name>sleep1a</name>
      <start><x>0</x><y>0</y><interval>500</interval></start>
      <end><x>0</x><y>0</y><interval>500</interval></end>
      <sequence repeat="10" repeatfrom="1"><frame>0</frame><frame>1</frame><next probability="100" only="none">16</next></sequence>
    </animation>
    <animation id="16">
      <name>sleep1b</name>
      <start><x>0</x><y>0</y><interval>1000</interval></start>
      <end><x>0</x><y>0</y><interval>1000</interval></end>
      <sequence repeat="20"><frame>1</frame><frame>0</frame><next probability="60" only="none">1</next><next probability="40" only="none">17</next></sequence>
    </animation>
    <animation id="17">
      <name>sleep2a</name>
      <start><x>0</x><y>0</y><interval>500</interval></start>
      <end><x>0</x><y>0</y><interval>500</interval></end>
      <sequence repeat="20"><frame>107</frame><frame>108</frame><next probability="60" only="none">1</next><next probability="40" only="none">19</next></sequence>
    </animation>
    <animation id="18">
      <name>dream9</name>
      <start><x>0</x><y>0</y><interval>100</interval></start>
      <end><x>0</x><y>0</y><interval>100</interval></end>
      <sequence><frame>88</frame><next probability="100" only="none">20</next></sequence>
    </animation>
    <animation id="19">
      <name>sleep3a</name>
      <start><x>0</x><y>0</y><interval>500</interval></start>
      <end><x>0</x><y>0</y><interval>500</interval></end>
      <sequence repeat="10" repeatfrom="1"><frame>0</frame><frame>80</frame><frame>1</frame><next probability="60" only="none">1</next><next probability="40" only="none">3</next></sequence>
    </animation>
    <animation id="20">
      <name>dream10</name>
      <start><x>0</x><y>0</y><interval>100</interval></start>
      <end><x>0</x><y>0</y><interval>100</interval></end>
      <sequence><frame>89</frame><next probability="100" only="none">25</next></sequence>
    </animation>
    <animation id="21">
      <name>batha</name>
      <start><x>-2</x><y>10</y><interval>30</interval></start>
      <end><x>-2</x><y>10</y><interval>30</interval></end>
      <sequence repeat="(areaH/2+randS*areaH/240)/10"><frame>134</frame><next probability="100" only="none">22</next></sequence>
    </animation>
    <animation id="22">
      <name>bathb</name>
      <start><x>0</x><y>0</y><interval>100</interval></start>
      <end><x>0</x><y>0</y><interval>100</interval></end>
      <sequence repeat="5"><frame>146</frame><frame>147</frame><next probability="100" only="none">47</next></sequence>
    </animation>
    <animation id="23">
      <name>bathtub</name>
      <start><x>0</x><y>0</y><interval>30</interval></start>
      <end><x>0</x><y>0</y><interval>30</interval></end>
      <sequence repeat="5+(areaH/2+randS*areaH/240)/10"><frame>148</frame><next probability="100" only="none">24</next></sequence>
    </animation>
    <animation id="24">
      <name>bathz</name>
      <start><x>0</x><y>0</y><interval>100</interval></start>
      <end><x>0</x><y>0</y><interval>100</interval></end>
      <sequence repeat="8"><frame>149</frame><frame>150</frame></sequence>
    </animation>
    <animation id="25">
      <name>dream11</name>
      <start><x>0</x><y>0</y><interval>100</interval></start>
      <end><x>0</x><y>0</y><interval>100</interval></end>
      <sequence><frame>90</frame><next probability="100" only="none">35</next></sequence>
    </animation>
    <animation id="26">
      <name>eat</name>
      <start><x>0</x><y>0</y><interval>200</interval></start>
      <end><x>0</x><y>0</y><interval>200</interval></end>
      <sequence repeat="1"><frame>58</frame><frame>59</frame><frame>60</frame><frame>61</frame><next probability="100" only="none">1</next></sequence>
    </animation>
    <animation id="27">
      <name>flower</name>
      <start><x>0</x><y>0</y><interval>200</interval></start>
      <end><x>0</x><y>0</y><interval>200</interval></end>
      <sequence><frame>153</frame><frame>152</frame><frame>151</frame></sequence>
    </animation>
    <animation id="28">
      <name>blacksheepa</name>
      <start><x>-4</x><y>0</y><interval>100</interval></start>
      <end><x>-4</x><y>0</y><interval>100</interval></end>
      <sequence><frame>2</frame><frame>3</frame><next probability="100" only="none">29</next></sequence>
    </animation>
    <animation id="29">
      <name>blacksheepb</name>
      <start><x>-4</x><y>0</y><interval>100</interval></start>
      <end><x>-4</x><y>0</y><interval>100</interval></end>
      <sequence repeat="Convert((screenW/2-imageW)/8,System.Int32)"><frame>2</frame><frame>3</frame><next probability="100" only="none">30</next></sequence>
    </animation>
    <animation id="30">
      <name>blacksheepc</name>
      <start><x>0</x><y>0</y><interval>200</interval></start>
      <end><x>0</x><y>0</y><interval>200</interval></end>
      <sequence repeat="2"><frame>50</frame><frame>51</frame><next probability="100" only="none">1</next></sequence>
    </animation>
    <animation id="31">
      <name>blacksheepw</name>
      <start><x>4</x><y>0</y><interval>100</interval></start>
      <end><x>4</x><y>0</y><interval>100</interval></end>
      <sequence><frame>154</frame><frame>155</frame><next probability="100" only="none">32</next></sequence>
    </animation>
    <animation id="32">
      <name>blacksheepx</name>
      <start><x>4</x><y>0</y><interval>100</interval></start>
      <end><x>4</x><y>0</y><interval>100</interval></end>
      <sequence repeat="Convert((screenW/2-imageW)/8,System.Int32)"><frame>154</frame><frame>155</frame><next probability="100" only="none">33</next></sequence>
    </animation>
    <animation id="33">
      <name>blacksheepy</name>
      <start><x>0</x><y>0</y><interval>200</interval></start>
      <end><x>0</x><y>0</y><interval>200</interval></end>
      <sequence repeat="2"><frame>156</frame><frame>157</frame><next probability="100" only="none">34</next></sequence>
    </animation>
    <animation id="34">
      <name>blacksheepz</name>
      <start><x>-4</x><y>0</y><interval>100</interval></start>
      <end><x>-4</x><y>0</y><interval>100</interval></end>
      <sequence repeat="4"><frame>158</frame><frame>159</frame></sequence>
    </animation>
    <animation id="35">
      <name>dream12</name>
      <start><x>0</x><y>0</y><interval>100</interval></start>
      <end><x>0</x><y>0</y><interval>100</interval></end>
      <sequence><frame>91</frame><next probability="100" only="none">36</next></sequence>
    </animation>
    <animation id="36">
      <name>dream13</name>
      <start><x>0</x><y>0</y><interval>100</interval></start>
      <end><x>0</x><y>0</y><interval>100</interval></end>
      <sequence><frame>92</frame><next probability="100" only="none">40</next></sequence>
    </animation>
    <animation id="37">
      <name>vertical_walk_up</name>
      <start><x>0</x><y>-2</y><interval>150</interval></start>
      <end><x>0</x><y>-2</y><interval>150</interval></end>
      <sequence repeat="30"><frame>31</frame><frame>30</frame><next probability="100" only="none">37</next></sequence>
      <border><next probability="100" only="none">38</next></border>
    </animation>
    <animation id="38">
      <name>top_walk1</name>
      <start><x>0</x><y>0</y><interval>150</interval></start>
      <end><x>0</x><y>0</y><interval>150</interval></end>
      <sequence><frame>97</frame><frame>98</frame><next probability="100" only="none">39</next></sequence>
    </animation>
    <animation id="39">
      <name>top_walk2</name>
      <start><x>-2</x><y>0</y><interval>150</interval></start>
      <end><x>-2</x><y>0</y><interval>150</interval></end>
      <sequence repeat="20"><frame>98</frame><frame>97</frame><next probability="50" only="none">39</next><next probability="50" only="none">5</next></sequence>
      <border><next probability="100" only="none">41</next></border>
    </animation>
    <animation id="40">
      <name>dream14</name>
      <start><x>0</x><y>0</y><interval>100</interval></start>
      <end><x>0</x><y>0</y><interval>100</interval></end>
      <sequence><frame>93</frame><next probability="100" only="none">42</next></sequence>
    </animation>
    <animation id="41">
      <name>vertical_walk_down</name>
      <start><x>0</x><y>2</y><interval>150</interval></start>
      <end><x>0</x><y>2</y><interval>150</interval></end>
      <sequence repeat="60"><frame>19</frame><frame>18</frame><next probability="100" only="none">41</next></sequence>
      <border><next probability="100" only="none">43</next></border>
    </animation>
    <animation id="42">
      <name>dream15</name>
      <start><x>0</x><y>0</y><interval>100</interval></start>
      <end><x>0</x><y>0</y><interval>100</interval></end>
      <sequence><frame>94</frame><next probability="100" only="none">44</next></sequence>
    </animation>
    <animation id="43">
      <name>vertical_walk_over</name>
      <start><x>0</x><y>0</y><interval>150</interval></start>
      <end><x>0</x><y>0</y><interval>150</interval></end>
      <sequence><frame>24</frame><frame>25</frame><next probability="100" only="none">1</next></sequence>
    </animation>
    <animation id="44">
      <name>dream16</name>
      <start><x>0</x><y>0</y><interval>100</interval></start>
      <end><x>0</x><y>0</y><interval>100</interval></end>
      <sequence><frame>95</frame><next probability="100" only="none">45</next></sequence>
    </animation>
    <animation id="45">
      <name>dream17</name>
      <start><x>0</x><y>0</y><interval>100</interval></start>
      <end><x>0</x><y>0</y><interval>100</interval></end>
      <sequence><frame>96</frame><next probability="100" only="none">46</next></sequence>
    </animation>
    <animation id="46">
      <name>dream18</name>
      <start><x>0</x><y>0</y><interval>100</interval></start>
      <end><x>0</x><y>0</y><interval>100</interval></end>
      <sequence><frame>97</frame><next probability="100" only="none">49</next></sequence>
    </animation>
    <animation id="47">
      <name>bathc</name>
      <start><x>0</x><y>0</y><interval>100</interval></start>
      <end><x>0</x><y>0</y><interval>100</interval></end>
      <sequence><frame>62</frame><frame>63</frame><next probability="100" only="none">48</next></sequence>
    </animation>
    <animation id="48">
      <name>bathd</name>
      <start><x>0</x><y>0</y><interval>100</interval></start>
      <end><x>0</x><y>0</y><interval>100</interval></end>
      <sequence><frame>64</frame><frame>65</frame><next probability="50" only="none">1</next><next probability="50" only="none">50</next></sequence>
    </animation>
    <animation id="49">
      <name>dream19</name>
      <start><x>0</x><y>0</y><interval>100</interval></start>
      <end><x>0</x><y>0</y><interval>100</interval></end>
      <sequence><frame>98</frame><next probability="100" only="none">58</next></sequence>
    </animation>
    <animation id="50">
      <name>scream</name>
      <start><x>0</x><y>0</y><interval>100</interval></start>
      <end><x>0</x><y>0</y><interval>100</interval></end>
      <sequence repeat="2"><frame>50</frame><frame>51</frame><next probability="100" only="none">51</next></sequence>
    </animation>
    <animation id="51">
      <name>kill1</name>
      <start><x>0</x><y>0</y><interval>100</interval></start>
      <end><x>0</x><y>0</y><interval>100</interval></end>
      <sequence><frame>52</frame><next probability="100" only="none">52</next></sequence>
    </animation>
    <animation id="52">
      <name>kill2</name>
      <start><x>0</x><y>-1</y><interval>50</interval><opacity>1.0</opacity></start>
      <end><x>0</x><y>-1</y><interval>50</interval><opacity>0.0</opacity></end>
      <sequence repeat="60"><frame>53</frame></sequence>
    </animation>
    <animation id="53">
      <name>shipa</name>
      <start><x>0</x><y>0</y><interval>50</interval><opacity>0.0</opacity></start>
      <end><x>0</x><y>0</y><interval>50</interval><opacity>1.0</opacity></end>
      <sequence repeat="10"><frame>160</frame><next probability="100" only="none">54</next></sequence>
    </animation>
    <animation id="54">
      <name>shipb1</name>
      <start><x>0</x><y>0</y><interval>50</interval></start>
      <end><x>0</x><y>0</y><interval>50</interval></end>
      <sequence repeat="3"><frame>161</frame><next probability="100" only="none">55</next></sequence>
    </animation>
    <animation id="55">
      <name>shipb4</name>
      <start><x>0</x><y>0</y><interval>50</interval></start>
      <end><x>0</x><y>0</y><interval>50</interval></end>
      <sequence repeat="3"><frame>162</frame><next probability="100" only="none">56</next></sequence>
    </animation>
    <animation id="56">
      <name>shipc</name>
      <start><x>0</x><y>-2</y><interval>50</interval></start>
      <end><x>0</x><y>-2</y><interval>50</interval></end>
      <sequence repeat="10"><frame>163</frame><next probability="100" only="none">57</next></sequence>
    </animation>
    <animation id="57">
      <name>shipc2</name>
      <start><x>0</x><y>-4</y><interval>50</interval></start>
      <end><x>0</x><y>-4</y><interval>50</interval></end>
      <sequence repeat="10"><frame>164</frame></sequence>
    </animation>
    <animation id="58">
      <name>dream20</name>
      <start><x>0</x><y>0</y><interval>100</interval></start>
      <end><x>0</x><y>0</y><interval>100</interval></end>
      <sequence><frame>99</frame><next probability="100" only="none">59</next></sequence>
    </animation>
    <animation id="59">
      <name>dream21</name>
      <start><x>0</x><y>0</y><interval>100</interval></start>
      <end><x>0</x><y>0</y><interval>100</interval></end>
      <sequence><frame>100</frame><next probability="100" only="none">60</next></sequence>
    </animation>
    <animation id="60">
      <name>dream22</name>
      <start><x>0</x><y>0</y><interval>100</interval></start>
      <end><x>0</x><y>0</y><interval>100</interval></end>
      <sequence><frame>101</frame><next probability="100" only="none">63</next></sequence>
    </animation>
    <animation id="61">
      <name>kill</name>
      <start><x>0</x><y>0</y><interval>100</interval></start>
      <end><x>0</x><y>0</y><interval>100</interval></end>
      <sequence><frame>54</frame></sequence>
    </animation>
    <animation id="62">
      <name>sync</name>
      <start><x>0</x><y>0</y><interval>100</interval></start>
      <end><x>0</x><y>0</y><interval>100</interval></end>
      <sequence><frame>0</frame><next probability="100" only="none">1</next></sequence>
    </animation>
    <animation id="63">
      <name>dream23</name>
      <start><x>0</x><y>0</y><interval>100</interval></start>
      <end><x>0</x><y>0</y><interval>100</interval></end>
      <sequence><frame>102</frame><next probability="100" only="none">1</next></sequence>
    </animation>
  </animations>
  <childs>
    <child animationid="26"><x>imageX-imageW*0.9</x><y>imageY</y><next>27</next></child>
    <child animationid="21"><x>screenW/2-imageW/2+randS</x><y>areaH-imageH</y><next>23</next></child>
    <child animationid="28"><x>-imageW</x><y>imageY</y><next>31</next></child>
    <child animationid="50"><x>imageX</x><y>imageY-imageH*4</y><next>53</next></child>
  </childs>
</animations>
"#;

fn pet() -> Pet<F> {
    Pet::parse(XML).unwrap()
}

/// A sheep with an identity of its own.
fn sheep(is_child: bool, d: &mut Dice) -> Sheep<F> {
    let mut ids = d.seed;
    Sheep::new(is_child, &mut ids, d)
}

fn ctx() -> Ctx<F> {
    Ctx {
        screen_w: F(1920.0),
        screen_h: F(1080.0),
        area_w: F(1920.0),
        area_h: F(1080.0),
        image_w: F(40.0),
        image_h: F(40.0),
        image_x: F(0.0),
        image_y: F(0.0),
        rand_s: F(50.0),
    }
}

#[test]
fn parses_the_original_pet() {
    let p = pet();
    assert_eq!((p.tiles_x, p.tiles_y), (16, 11));
    assert_eq!(p.animations.len(), 63);
    assert_eq!(p.spawns.len(), 4);
    assert_eq!(p.children.len(), 4);
    for id in 1..=63u32 {
        assert!(p.get(id).is_some(), "missing animation {id}");
    }
}

#[test]
fn the_bundled_pet_has_no_embedded_sheet() {
    // Its payload is blank: the sheet stands in a file of its own.
    assert!(pet().png.is_none());
}

#[test]
fn known_animations_have_the_expected_shape() {
    let p = pet();
    let walk = p.get(1).unwrap();
    assert_eq!(walk.name, "walk");
    assert_eq!(walk.frames, vec![2, 3]);
    assert_eq!(walk.start.x, "-2");
    // walk falls back to `fall` when it runs out of ground.
    assert_eq!(walk.gravity.iter().map(|n| n.target).collect::<Vec<_>>(), vec![5]);
    assert_eq!(p.get(5).unwrap().name, "fall");
    assert_eq!(p.get(4).unwrap().name, "drag");
    assert!(p.by_name("drag").is_some());
}

#[test]
fn every_transition_points_at_a_real_animation() {
    let p = pet();
    for a in &p.animations {
        for n in a.next.iter().chain(&a.border).chain(&a.gravity) {
            assert!(p.get(n.target).is_some(), "anim {} -> missing {}", a.id, n.target);
        }
    }
    for s in &p.spawns {
        assert!(p.get(s.next).is_some(), "spawn -> missing {}", s.next);
    }
    for c in &p.children {
        assert!(p.get(c.next).is_some(), "child -> missing {}", c.next);
        assert!(p.get(c.animation_id).is_some());
    }
}

#[test]
fn every_frame_index_is_inside_the_sheet() {
    let p = pet();
    let slots = p.tiles_x * p.tiles_y;
    for a in &p.animations {
        for &f in &a.frames {
            assert!(f < slots, "anim {} frame {f} exceeds {slots} tiles", a.id);
        }
    }
}

#[test]
fn terminal_animations_have_no_transitions() {
    let p = pet();
    // bathz, flower and blacksheepz end their chains.
    for id in [24u32, 27, 34] {
        let a = p.get(id).unwrap();
        assert!(a.next.is_empty(), "anim {id} ({}) should be terminal", a.name);
    }
}

#[test]
fn only_filters_are_parsed_and_respected() {
    let mut d = Dice::with_seed(7);
    let p = pet();
    let walk = p.get(1).unwrap();
    assert!(walk.next.iter().any(|n| n.only == Only::Window));

    // Off a window, window-only transitions must never be selected.
    let grounded = Situation { on_taskbar: true, ..Default::default() };
    for _ in 0..500 {
        let pick = p.pick_next(&walk.next, grounded, &mut d).unwrap();
        assert_ne!(pick.only, Only::Window);
    }
    // On a window they become reachable.
    let on_win = Situation { on_window: true, ..Default::default() };
    assert!((0..2000).any(|_| p.pick_next(&walk.next, on_win, &mut d).unwrap().only == Only::Window));
}

#[test]
fn all_four_spawns_are_reachable() {
    let mut d = Dice::with_seed(7);
    // Rare as the last two are, none of them may be left out.
    let p = pet();
    let mut seen = std::collections::HashSet::new();
    for _ in 0..20_000 {
        let s = p.choose_spawn(&mut d).unwrap();
        seen.insert((s.x.clone(), s.y.clone()));
    }
    assert_eq!(seen.len(), 4, "expected every spawn point to be reachable");
}

#[test]
fn step_counts_and_frame_looping() {
    let mut d = Dice::with_seed(7);
    let p = pet();
    let c = ctx();
    // walk: 2 frames, repeat 20, repeatfrom 0 -> 2 + 2*20 = 42 steps.
    let walk = p.get(1).unwrap();
    assert_eq!(walk.steps(&c, &mut d), 42);
    assert_eq!(walk.frame_at(0), 2);
    assert_eq!(walk.frame_at(1), 3);
    assert_eq!(walk.frame_at(2), 2);

    // Every animation must produce a usable step count and never panic.
    for a in &p.animations {
        let steps = a.steps(&c, &mut d);
        assert!(steps >= 1, "anim {} has no steps", a.id);
        for s in 0..steps.min(500) {
            a.frame_at(s);
        }
    }
}

#[test]
fn convert_expressions_no_longer_degenerate() {
    let mut d = Dice::with_seed(7);
    let p = pet();
    let c = ctx();
    // Animations 29 and 32 count their repeats with Convert(), which must not
    // be taken for a failure and no repeats at all.
    for id in [29u32, 32] {
        let a = p.get(id).unwrap();
        assert!(a.repeat.contains("Convert"));
        assert!(a.steps(&c, &mut d) > a.frames.len() as u32, "anim {id} degenerated to no repeats");
    }
}

/// A monitor showing workspace 1, which is what the sheep in most of
/// these tests belong to when they belong to one at all.
fn screen(id: i64, x: F, w: F, h: F) -> Screen<F> {
    Screen { id, x, y: F(0.0), w, h, reserved: (F(0.0), F(0.0), F(0.0), F(0.0)), workspace: 1 }
}

fn world() -> World<F> {
    World {
        screens: vec![screen(0, F(0.0), F(1920.0), F(1080.0))],
        windows: vec![],
        flock: vec![],
        pointer: None,
    }
}

/// Two monitors side by side, the second narrower.
fn two_screens() -> World<F> {
    World {
        screens: vec![screen(0, F(0.0), F(1920.0), F(1080.0)), screen(1, F(1920.0), F(960.0), F(1080.0))],
        windows: vec![],
        flock: vec![],
        pointer: None,
    }
}

/// Run the machine for many steps and make sure it never panics, never
/// leaves the screen for good, and never gets stuck.
#[test]
fn long_run_stays_sane() {
    let mut d = Dice::with_seed(7);
    let p = pet();
    let w = world();
    let mut s = sheep(false, &mut d);
    let mut ev = Vec::new();
    s.spawn(&p, &w, TILE, &mut ev, &mut d);

    let mut visited = std::collections::HashSet::new();
    for _ in 0..200_000 {
        ev.clear();
        let ms = s.step(&p, &w, TILE, &mut ev, &mut d);
        visited.insert(s.animation);
        assert!(ms >= 10, "implausible delay {ms}");
        assert!(s.x.is_finite() && s.y.is_finite(), "position went non-finite");
        assert!(p.get(s.animation).is_some(), "entered unknown animation");
    }
    // A long run should exercise a decent slice of the behaviour graph.
    assert!(visited.len() > 10, "only reached {} animations", visited.len());
}

/// A scaled sheep covers proportionally more ground, so it walks at the
/// same apparent speed whatever size it is drawn at.
#[test]
fn scale_stretches_the_stride() {
    let p = pet();
    let w = world();
    let step_of = |scale: F, tile: F| {
        let mut d = Dice::with_seed(7);
        let mut s = sheep(false, &mut d);
        s.scale = scale;
        let mut ev = Vec::new();
        s.x = F(500.0);
        s.y = F(100.0);
        // Animation 1 is `walk`, whose velocity is -2 per step.
        s.begin(&p, &w, tile, 1, &mut ev, &mut d);
        let before = s.x;
        s.step(&p, &w, tile, &mut ev, &mut d);
        s.x - before
    };
    assert_eq!(step_of(F(1.0), TILE), -F(2.0));
    assert_eq!(step_of(F(2.0), TILE * F(2.0)), -F(4.0));
    assert_eq!(step_of(F(0.5), TILE / F(2.0)), -F(1.0));
}

/// Speed is a matter of timing only: the same steps, taken sooner.
#[test]
fn speed_shortens_the_wait_without_changing_the_walk() {
    let p = pet();
    let w = world();
    let run = |speed: F| {
        let mut d = Dice::with_seed(7);
        let mut s = sheep(false, &mut d);
        s.speed = speed;
        let mut ev = Vec::new();
        s.x = F(500.0);
        s.y = F(100.0);
        s.begin(&p, &w, TILE, 1, &mut ev, &mut d);
        let ms = s.step(&p, &w, TILE, &mut ev, &mut d);
        (ms, s.x)
    };
    let (slow, slow_x) = run(F(1.0));
    let (fast, fast_x) = run(F(2.0));
    assert_eq!(fast * 2, slow, "twice the speed is half the wait");
    assert_eq!(fast_x, slow_x, "the stride itself is unchanged");
    // Even a very fast sheep leaves the event loop time to breathe.
    assert!(run(F(10.0)).0 >= 10);
}

/// Between two steps the sprite is drawn part-way along, arriving exactly
/// as the next step falls due.
#[test]
fn the_sprite_is_drawn_between_the_steps_it_takes() {
    let mut d = Dice::with_seed(7);
    let p = pet();
    let w = world();
    let mut s = sheep(false, &mut d);
    let mut ev = Vec::new();
    s.x = F(500.0);
    s.y = F(100.0);
    // Animation 1 is `walk`, whose velocity is -2 per step.
    s.begin(&p, &w, TILE, 1, &mut ev, &mut d);
    assert!(!s.gliding(), "a sheep only just placed has nowhere to glide from");

    let from = s.pose();
    s.step(&p, &w, TILE, &mut ev, &mut d);
    assert!(s.gliding(), "walking should leave something to interpolate");
    assert_eq!(s.pose_at(F(0.0)), from, "at the start of the step, still where it was");
    assert_eq!(s.pose_at(F(1.0)), s.pose(), "at the end of the step, arrived");
    assert_eq!(s.pose_at(F(0.5)).x, from.x - F(1.0), "and half a pixel-pair along in between");
    // The host may ask a moment late, or with a zero-length step; neither
    // may throw the sheep past where it was actually going.
    assert_eq!(s.pose_at(F(2.0)), s.pose());
    assert_eq!(s.pose_at(-F(1.0)), from);
}

/// A sheep that is put somewhere rather than walking there must simply be
/// there, not glide across the screen to reach it.
#[test]
fn a_sheep_that_is_placed_never_glides_from_where_it_was() {
    let mut d = Dice::with_seed(7);
    let p = pet();
    let w = world();
    let mut s = sheep(false, &mut d);
    let mut ev = Vec::new();
    s.x = F(500.0);
    s.y = F(100.0);
    s.begin(&p, &w, TILE, 1, &mut ev, &mut d);
    s.step(&p, &w, TILE, &mut ev, &mut d);
    assert!(s.gliding());

    // Respawning drops the sheep at a fresh spawn point.
    s.spawn(&p, &w, TILE, &mut ev, &mut d);
    assert!(!s.gliding(), "a spawning sheep should appear, not fly in");

    // The pointer is the position: a dragged sheep must not trail it.
    s.grab(&p, &w, TILE, &mut d);
    s.drag_to(F(1200.0), F(300.0), TILE);
    assert!(!s.gliding(), "a dragged sheep should sit under the pointer");
    assert_eq!(s.pose_at(F(0.0)), s.pose());
}

/// Interpolation must cost nothing while the sheep is still: a napping
/// sheep leaves the host with no reason to redraw between its steps.
#[test]
fn a_sheep_that_is_not_moving_has_nothing_to_interpolate() {
    let mut d = Dice::with_seed(7);
    let p = pet();
    let w = world();
    // sleep1b is the long middle of a nap: it neither moves nor fades.
    let id = p.by_name("sleep1b").unwrap().id;
    let mut s = sheep(false, &mut d);
    let mut ev = Vec::new();
    s.x = F(500.0);
    s.y = F(1040.0);
    s.begin(&p, &w, TILE, id, &mut ev, &mut d);
    for _ in 0..20 {
        s.step(&p, &w, TILE, &mut ev, &mut d);
        if s.animation != id {
            break;
        }
        assert!(!s.gliding(), "a sleeping sheep should ask for no frames of its own");
    }
}

#[test]
fn falls_when_unsupported_and_lands_on_a_window() {
    let mut d = Dice::with_seed(7);
    let p = pet();
    let mut w = world();
    w.windows.push(Rect { id: 7, x: F(200.0), y: F(600.0), w: F(800.0), h: F(400.0) });

    let mut s = sheep(false, &mut d);
    let mut ev = Vec::new();
    s.x = F(400.0);
    s.y = F(100.0);
    // Start walking in mid-air; gravity must take over.
    s.begin(&p, &w, TILE, 1, &mut ev, &mut d);
    let mut landed = false;
    for _ in 0..400 {
        s.step(&p, &w, TILE, &mut ev, &mut d);
        if s.resting_on == Some(7) {
            landed = true;
            break;
        }
    }
    assert!(landed, "sheep never landed on the window (ended at y={})", s.y);
    // Feet should sit exactly on the window's top edge.
    assert!((s.y + TILE - F(600.0)).abs() < F(1.0), "feet at {}", s.y + TILE);
}

/// Under a bar, tiled windows sit only a few pixels down. The sheep must
/// still be able to land on them.
#[test]
fn lands_on_a_window_just_below_a_bar() {
    let mut d = Dice::with_seed(7);
    let p = pet();
    let mut w = world();
    w.windows.push(Rect { id: 3, x: F(12.0), y: F(42.0), w: F(941.0), h: F(1026.0) });

    let mut s = sheep(false, &mut d);
    let mut ev = Vec::new();
    s.x = F(500.0);
    s.y = -F(60.0);
    s.begin(&p, &w, TILE, 5, &mut ev, &mut d);
    for _ in 0..400 {
        s.step(&p, &w, TILE, &mut ev, &mut d);
        if s.resting_on == Some(3) {
            assert!((s.y + TILE - F(42.0)).abs() < F(1.0), "feet at {}", s.y + TILE);
            assert!(s.y >= F(0.0), "sheep landed off the top of the screen");
            return;
        }
    }
    panic!("sheep fell past a window at y=42 (ended at y={})", s.y);
}

/// Only four of the pet's animations declare any `<gravity>`, so a
/// sleeping or idling sheep must still notice when its window moves away
/// rather than hanging in mid-air until the animation happens to end.
#[test]
fn a_sheep_that_is_not_walking_still_falls() {
    let mut d = Dice::with_seed(7);
    let p = pet();
    for (id, name) in [(15u32, "sleep1a"), (19, "sleep3a"), (39, "top_walk2"), (16, "sleep1b")]
    {
        assert!(p.get(id).unwrap().gravity.is_empty(), "{name} unexpectedly declares gravity");

        let mut w = world();
        w.windows.push(Rect { id: 7, x: F(200.0), y: F(600.0), w: F(800.0), h: F(400.0) });
        let mut s = sheep(false, &mut d);
        let mut ev = Vec::new();
        s.x = F(400.0);
        s.y = F(560.0);
        s.resting_on = Some(7);
        s.begin(&p, &w, TILE, id, &mut ev, &mut d);

        // The window is dragged off to the right, out from under the sheep.
        w.windows[0].x = F(1400.0);

        let mut fell = false;
        for _ in 0..40 {
            s.step(&p, &w, TILE, &mut ev, &mut d);
            if s.y > F(600.0) {
                fell = true;
                break;
            }
        }
        assert!(fell, "{name} hung in mid-air at y={} after its window moved", s.y);
        assert_eq!(s.resting_on, None, "{name} still claims to be on the window");
    }
}

/// An animation that takes the sheep downwards under its own steam is
/// already dealing with gravity, so losing support must not yank it into a
/// fall midway through.
#[test]
fn a_descending_animation_is_not_interrupted() {
    let mut d = Dice::with_seed(7);
    let p = pet();
    let fall = p.fall_animation().unwrap();
    // vertical_walk_down climbs down a wall: it descends, declares no
    // <gravity> of its own, and runs for a long time.
    let climbing = 41;
    let a = p.get(climbing).unwrap();
    assert!(a.gravity.is_empty() && a.end.y == "2", "vertical_walk_down changed shape");

    let w = world();
    let mut s = sheep(false, &mut d);
    let mut ev = Vec::new();
    s.x = F(400.0);
    s.y = F(300.0);
    // It believes it is on a window that is no longer there.
    s.resting_on = Some(99);
    s.begin(&p, &w, TILE, climbing, &mut ev, &mut d);

    for _ in 0..20 {
        s.step(&p, &w, TILE, &mut ev, &mut d);
        assert_ne!(s.animation, fall, "climbing down was interrupted by a fall");
    }
    assert_eq!(s.animation, climbing);
}

/// The abduction. The sheep screams, a saucer
/// fades in above it, and it is lifted away; the saucer then leaves.
#[test]
fn the_abduction_runs_end_to_end() {
    let mut d = Dice::with_seed(7);
    let p = pet();
    let w = world();
    let scream = p.by_name("scream").unwrap().id;
    let ship = p.by_name("shipa").unwrap().id;

    let mut s = sheep(false, &mut d);
    let mut ev = Vec::new();
    s.x = F(800.0);
    s.y = F(1040.0);
    s.begin(&p, &w, TILE, scream, &mut ev, &mut d);

    // The saucer arrives as a companion, well above the sheep.
    let spawned = ev.iter().find_map(|e| match e {
        Event::SpawnChild { animation, x, y, .. } if *animation == ship => Some((*x, *y)),
        _ => None,
    });
    let (sx, sy) = spawned.expect("scream should bring on the saucer");
    assert_eq!(sx, F(800.0), "saucer should be directly above the sheep");
    assert!(sy < s.y - TILE * F(3.0), "saucer should be well overhead, got {sy}");

    // The sheep is carried upwards and fades out.
    let mut rose = false;
    for _ in 0..2000 {
        s.step(&p, &w, TILE, &mut ev, &mut d);
        if p.get(s.animation).unwrap().name == "kill2" && s.y <= F(1020.0) {
            rose = true;
            if s.opacity < F(0.2) {
                break;
            }
        }
    }
    assert!(rose, "the sheep was never carried off");
    assert!(s.opacity < F(0.2), "the sheep never faded out");

    // kill2 is terminal, so an ordinary sheep starts over rather than dying.
    let mut settled = sheep(false, &mut d);
    settled.x = F(800.0);
    settled.y = F(1040.0);
    settled.begin(&p, &w, TILE, p.by_name("kill2").unwrap().id, &mut ev, &mut d);
    ev.clear();
    for _ in 0..4000 {
        settled.step(&p, &w, TILE, &mut ev, &mut d);
    }
    assert!(!ev.contains(&Event::Died), "an ordinary sheep should respawn, not die");

    // The saucer fades in, beams, then flies off and is gone.
    let mut tug = sheep(true, &mut d);
    ev.clear();
    tug.x = F(800.0);
    tug.y = F(800.0);
    tug.begin(&p, &w, TILE, ship, &mut ev, &mut d);
    let mut seen = std::collections::HashSet::new();
    for _ in 0..40_000 {
        ev.clear();
        tug.step(&p, &w, TILE, &mut ev, &mut d);
        seen.insert(p.get(tug.animation).unwrap().name.clone());
        if ev.contains(&Event::Died) {
            for want in ["shipb1", "shipb4", "shipc", "shipc2"] {
                assert!(seen.contains(want), "saucer skipped {want}: {seen:?}");
            }
            assert!(tug.y < F(800.0), "the saucer should leave upwards");
            return;
        }
    }
    panic!("the saucer never left (reached {seen:?})");
}

/// The sheep must never carry on walking in mid-air. Whenever it is
/// unsupported and off the floor in an animation that declares gravity,
/// it should fall essentially at once.
#[test]
fn it_never_walks_in_mid_air() {
    let mut d = Dice::with_seed(7);
    let p = pet();
    let mut w = two_screens();
    w.windows.push(Rect { id: 1, x: F(12.0), y: F(562.0), w: F(851.0), h: F(506.0) });
    w.windows.push(Rect { id: 2, x: F(877.0), y: F(42.0), w: F(506.0), h: F(1026.0) });

    // Solid window sides put the sheep up the face of one, which must not
    // become a way of walking about in mid-air either.
    for climb in [false, true] {
        let mut s = sheep(false, &mut d);
        s.climb_windows = climb;
        let mut ev = Vec::new();
        s.spawn(&p, &w, TILE, &mut ev, &mut d);

        let mut airborne_run = 0;
        let mut worst = 0;
        for _ in 0..200_000 {
            s.step(&p, &w, TILE, &mut ev, &mut d);
            let floor = s.screen(&w, TILE).floor() - TILE;
            let grounded = s.resting_on.is_some() || s.y >= floor - F(2.0);
            // Animations that declare gravity are the walking-about ones; the
            // rest are deliberately airborne (falling, jumping, climbing).
            let should_fall = !grounded && !p.get(s.animation).unwrap().gravity.is_empty();
            airborne_run = if should_fall { airborne_run + 1 } else { 0 };
            worst = worst.max(airborne_run);
            assert!(
                airborne_run < 3,
                "{airborne_run} steps in mid-air: anim {} ({}) at ({:.0},{:.0}), resting {:?}",
                s.animation,
                p.get(s.animation).unwrap().name,
                s.x,
                s.y,
                s.resting_on
            );
        }
        assert!(worst <= 2, "worst airborne run was {worst} (climb_windows={climb})");
    }
}

/// Stepping just off a ledge nudges the sheep back on, but a window that
/// has moved far away is not a ledge: chasing it would drag the sheep
/// across the screen instead of letting it fall.
#[test]
fn it_steps_back_onto_a_ledge_but_does_not_chase_a_moved_window() {
    let mut d = Dice::with_seed(7);
    let p = pet();

    // Barely off the left edge: step back on, stay put.
    let mut w = world();
    w.windows.push(Rect { id: 7, x: F(400.0), y: F(600.0), w: F(800.0), h: F(400.0) });
    let mut s = sheep(false, &mut d);
    let mut ev = Vec::new();
    s.x = F(390.0);
    s.y = F(560.0);
    s.resting_on = Some(7);
    s.begin(&p, &w, TILE, 1, &mut ev, &mut d);
    for _ in 0..10 {
        s.step(&p, &w, TILE, &mut ev, &mut d);
    }
    assert_eq!(s.resting_on, Some(7), "nudged off a ledge it had only just left");

    // Far past the edge: the window moved, so let go and fall.
    let mut w = world();
    w.windows.push(Rect { id: 7, x: F(400.0), y: F(600.0), w: F(800.0), h: F(400.0) });
    let mut s = sheep(false, &mut d);
    s.x = F(100.0);
    s.y = F(560.0);
    s.resting_on = Some(7);
    s.begin(&p, &w, TILE, 1, &mut ev, &mut d);
    let start_x = s.x;
    for _ in 0..40 {
        s.step(&p, &w, TILE, &mut ev, &mut d);
    }
    assert_eq!(s.resting_on, None, "still hanging onto a window 300px away");
    assert!(s.y > F(560.0), "never started falling (y={})", s.y);
    assert!(s.x < start_x + F(40.0), "crept toward the distant window (x={})", s.x);
}


#[test]
fn a_closed_window_drops_the_sheep() {
    let mut d = Dice::with_seed(7);
    let p = pet();
    let mut w = world();
    w.windows.push(Rect { id: 7, x: F(200.0), y: F(600.0), w: F(800.0), h: F(400.0) });
    let mut s = sheep(false, &mut d);
    let mut ev = Vec::new();
    s.x = F(400.0);
    s.y = F(560.0);
    s.resting_on = Some(7);
    s.begin(&p, &w, TILE, 1, &mut ev, &mut d);

    w.windows.clear();
    for _ in 0..200 {
        s.step(&p, &w, TILE, &mut ev, &mut d);
        if s.resting_on.is_none() && s.y > F(600.0) {
            return;
        }
    }
    panic!("sheep kept standing on a window that closed (y={})", s.y);
}

#[test]
fn walks_across_the_seam_onto_the_next_monitor() {
    let mut d = Dice::with_seed(7);
    let p = pet();
    let w = two_screens();
    let mut s = sheep(false, &mut d);
    let mut ev = Vec::new();
    // On the floor near the right edge of the first monitor, facing right.
    s.x = F(1900.0);
    s.y = F(1040.0);
    s.flipped = true;
    s.begin(&p, &w, TILE, 1, &mut ev, &mut d);

    for _ in 0..200 {
        s.step(&p, &w, TILE, &mut ev, &mut d);
        if s.x > F(1960.0) {
            assert_eq!(s.screen(&w, TILE).id, 1, "should now be on the second monitor");
            return;
        }
        // It must never be clamped to the inner edge: that edge is not a wall.
        assert!(s.x >= F(1880.0) || s.animation != 1, "clamped at the seam (x={})", s.x);
    }
    panic!("never crossed the seam (ended at x={}, anim {})", s.x, s.animation);
}

#[test]
fn the_outer_edge_is_still_a_wall() {
    let mut d = Dice::with_seed(7);
    let p = pet();
    let w = two_screens();
    let mut s = sheep(false, &mut d);
    let mut ev = Vec::new();
    // Far right of the second monitor, walking further right.
    s.x = F(2820.0);
    s.y = F(1040.0);
    s.flipped = true;
    s.begin(&p, &w, TILE, 1, &mut ev, &mut d);

    for _ in 0..400 {
        s.step(&p, &w, TILE, &mut ev, &mut d);
        assert!(s.x <= F(2840.0), "sheep walked off the right of the desktop (x={})", s.x);
    }
}

/// A window standing on the floor, for the sheep to walk into the side of.
fn world_with_a_tall_window() -> World<F> {
    let mut w = world();
    w.windows.push(Rect { id: 5, x: F(200.0), y: F(600.0), w: F(800.0), h: F(480.0) });
    w
}

#[test]
fn a_window_side_stops_the_sheep_only_when_it_is_asked_to() {
    let mut d = Dice::with_seed(7);
    let p = pet();
    let w = world_with_a_tall_window();

    // Walking left along the floor, towards the window's right face: how
    // far in did it get before the face did something about it?
    let mut walk = |climb: bool| {
        let mut s = sheep(false, &mut d);
        s.climb_windows = climb;
        let mut ev = Vec::new();
        s.x = F(1010.0);
        s.y = F(1040.0);
        s.begin(&p, &w, TILE, 1, &mut ev, &mut d);
        let mut furthest = s.x;
        for _ in 0..200 {
            s.step(&p, &w, TILE, &mut ev, &mut d);
            furthest = furthest.min(s.x);
        }
        furthest
    };

    // Off, the side is not there at all: the sheep always walks straight
    // in, every time.
    for _ in 0..50 {
        assert!(walk(false) < F(900.0), "sheep was stopped by a window it should ignore");
    }

    // On, the face stops it some of the time and is walked through the
    // rest, so both outcomes must show up over a run of approaches.
    let (mut stopped, mut through) = (0, 0);
    for _ in 0..50 {
        if walk(true) >= F(1000.0) { stopped += 1 } else { through += 1 }
    }
    assert!(stopped > 0, "a window's side never stopped the sheep at all");
    assert!(through > 0, "a window's side always stopped the sheep");
}

/// Which is what makes the climbing animations eligible: `walk` offers
/// vertical_walk_up on a border, but only for `vertical`.
#[test]
fn hitting_a_window_side_counts_as_being_against_a_wall() {
    let mut d = Dice::with_seed(7);
    let p = pet();
    let w = world_with_a_tall_window();
    // A face is walked through more often than not, so approach it until
    // one of the approaches is the kind that stops.
    for attempt in 0..200 {
        let mut s = sheep(false, &mut d);
        s.climb_windows = true;
        let mut ev = Vec::new();
        s.x = F(1004.0);
        s.y = F(1040.0);
        s.begin(&p, &w, TILE, 1, &mut ev, &mut d);

        for _ in 0..4 {
            s.step(&p, &w, TILE, &mut ev, &mut d);
        }
        if s.x == F(1000.0) {
            assert!(s.situation.on_vertical, "a window face did not count as vertical");
            return;
        }
        assert!(attempt < 199, "never once held against the window's right face");
    }
}

/// A sheep standing still on the floor at `x`, for another to walk into.
fn world_with_a_sheep_at(x: F, y: F) -> World<F> {
    let mut w = world();
    w.flock.push(Rect { id: 77, x, y, w: TILE, h: TILE });
    w
}

/// Walk left off `from` for 200 steps and report the furthest it reached.
fn approach(d: &mut Dice, p: &Pet<F>, w: &World<F>, from: F) -> F {
    let mut s = sheep(false, d);
    let mut ev = Vec::new();
    s.x = from;
    s.y = F(1040.0);
    s.begin(p, w, TILE, 1, &mut ev, d);
    let mut furthest = s.x;
    for _ in 0..200 {
        s.step(p, w, TILE, &mut ev, d);
        furthest = furthest.min(s.x);
    }
    furthest
}

/// Two monitors side by side showing different workspaces, which is the
/// whole point of the seam: a sheep crossing it changes which one it is
/// on, and stays in sight either way.
fn two_workspaces() -> World<F> {
    let mut w = two_screens();
    w.screens[0].workspace = 1;
    w.screens[1].workspace = 5;
    w
}

/// A sheep that belongs to a workspace, placed on the floor at `x`.
fn sheep_on(d: &mut Dice, ws: i64, x: F) -> Sheep<F> {
    let mut s = sheep(false, d);
    s.workspaces = true;
    s.workspace = Some(ws);
    s.x = x;
    s.y = F(1040.0);
    s
}

#[test]
fn a_sheep_arrives_on_whatever_its_screen_is_showing() {
    let mut d = Dice::with_seed(7);
    let p = pet();
    let w = two_workspaces();
    for _ in 0..40 {
        let mut s = sheep(false, &mut d);
        s.workspaces = true;
        let mut ev = Vec::new();
        s.spawn(&p, &w, TILE, &mut ev, &mut d);
        let screen = s.screen(&w, TILE);
        assert_eq!(
            s.workspace,
            Some(screen.workspace),
            "arrived on screen {} without joining the workspace it shows",
            screen.id
        );
        assert!(s.shown(&w, TILE), "a sheep that has just arrived is not on show");
    }
}

/// A sheep with workspaces turned off belongs to none, and is on all of
/// them.
#[test]
fn with_workspaces_off_a_sheep_is_on_every_one() {
    let mut d = Dice::with_seed(7);
    let p = pet();
    let mut w = world();
    let mut s = sheep(false, &mut d);
    let mut ev = Vec::new();
    s.spawn(&p, &w, TILE, &mut ev, &mut d);
    assert_eq!(s.workspace, None);
    assert!(s.shown(&w, TILE));
    w.screens[0].workspace = 9;
    assert!(s.shown(&w, TILE), "a sheep on no workspace was taken off screen by a switch");
}

/// Switching the workspace out from under a sheep takes it off screen
/// without stopping it: it carries on walking where nobody can see it, as
/// it does behind a fullscreen window.
#[test]
fn a_workspace_switch_takes_the_sheep_off_screen_but_not_out_of_the_world() {
    let mut d = Dice::with_seed(7);
    let p = pet();
    let mut w = world();
    let mut s = sheep_on(&mut d, 1, F(900.0));
    let mut ev = Vec::new();
    s.begin(&p, &w, TILE, 1, &mut ev, &mut d);
    assert!(s.shown(&w, TILE));

    w.screens[0].workspace = 2;
    assert!(!s.shown(&w, TILE), "still on show after the workspace changed under it");

    let before = s.x;
    for _ in 0..40 {
        s.step(&p, &w, TILE, &mut ev, &mut d);
    }
    assert_ne!(before, s.x, "a sheep out of sight stopped living");
    assert_eq!(s.workspace, Some(1), "it left its own workspace without being asked to");
}

#[test]
fn walking_across_a_seam_joins_the_next_screens_workspace() {
    let mut d = Dice::with_seed(7);
    let p = pet();
    let w = two_workspaces();
    // Far enough back that its middle - which is what decides the screen
    // it is on - is still on the first monitor.
    let mut s = sheep_on(&mut d, 1, F(1850.0));
    let mut ev = Vec::new();
    // Facing right, a few steps from the seam.
    s.flipped = true;
    s.begin(&p, &w, TILE, 1, &mut ev, &mut d);

    for _ in 0..200 {
        s.step(&p, &w, TILE, &mut ev, &mut d);
        // In sight the whole way over: it is the crossing itself that
        // moves it between workspaces, so there is no step where it
        // belongs to the screen it has left.
        assert!(s.shown(&w, TILE), "went out of sight at x={}", s.x);
        if s.screen(&w, TILE).id == 1 {
            assert_eq!(s.workspace, Some(5), "crossed the seam without joining ws 5");
            return;
        }
    }
    panic!("never crossed the seam (ended at x={})", s.x);
}

/// The other way round: a sheep nobody can see walks onto the next screen
/// and is in sight there, having wandered in from the neighbouring one.
#[test]
fn a_sheep_out_of_sight_can_walk_onto_a_screen_where_it_is_seen() {
    let mut d = Dice::with_seed(7);
    let p = pet();
    let mut w = two_workspaces();
    // The first monitor has switched away from the sheep's workspace.
    w.screens[0].workspace = 3;
    let mut s = sheep_on(&mut d, 1, F(1850.0));
    let mut ev = Vec::new();
    s.flipped = true;
    s.begin(&p, &w, TILE, 1, &mut ev, &mut d);
    assert!(!s.shown(&w, TILE));

    for _ in 0..200 {
        s.step(&p, &w, TILE, &mut ev, &mut d);
        if s.screen(&w, TILE).id == 1 {
            assert!(s.shown(&w, TILE), "walked onto a screen showing ws 5 and stayed hidden");
            return;
        }
    }
    panic!("never crossed the seam (ended at x={})", s.x);
}

#[test]
fn a_sheep_out_of_sight_comes_out_onto_the_workspace_being_shown() {
    let mut d = Dice::with_seed(7);
    let p = pet();
    let mut w = world();
    w.screens[0].workspace = 2;
    let mut s = sheep_on(&mut d, 1, F(900.0));
    let mut ev = Vec::new();
    s.begin(&p, &w, TILE, 1, &mut ev, &mut d);
    assert!(!s.shown(&w, TILE));

    s.wander_on(&p, &w, TILE, &mut d);
    assert_eq!(s.workspace, Some(2), "came out onto the wrong workspace");
    assert!(s.shown(&w, TILE), "came out and still could not be seen");
    // In from the side, on the floor, rather than appearing out of nowhere
    // in the middle of the screen.
    let screen = s.screen(&w, TILE);
    assert!(
        s.x == screen.x || s.x == screen.right() - TILE,
        "came out at x={} rather than at an edge",
        s.x
    );
    assert_eq!(s.y, screen.floor() - TILE, "came out somewhere other than the floor");
    // And walking inwards, not straight back off the screen.
    let before = s.x;
    for _ in 0..4 {
        s.step(&p, &w, TILE, &mut ev, &mut d);
    }
    let inward = if before == screen.x { s.x > before } else { s.x < before };
    assert!(inward, "walked off the edge it came in at (x={before} to {})", s.x);
}

/// It comes in from the nearer side, having plausibly been over there.
#[test]
fn it_comes_out_at_the_edge_it_was_nearest() {
    let mut d = Dice::with_seed(7);
    let p = pet();
    let mut w = world();
    w.screens[0].workspace = 2;
    for (x, edge) in [(F(200.0), F(0.0)), (F(1700.0), F(1920.0) - TILE)] {
        let mut s = sheep_on(&mut d, 1, x);
        let mut ev = Vec::new();
        s.begin(&p, &w, TILE, 1, &mut ev, &mut d);
        s.wander_on(&p, &w, TILE, &mut d);
        assert_eq!(s.x, edge, "a sheep at x={x} came out at the far edge");
    }
}

/// A sheep nobody can see is not in the way of one that can be seen, and
/// nor is the flock in its way. The host leaves it out of the flock; this
/// is the other half, so that it does not turn at sheep it cannot meet.
#[test]
fn a_sheep_out_of_sight_is_not_stopped_by_the_flock() {
    let mut d = Dice::with_seed(7);
    let p = pet();
    let mut w = world_with_a_sheep_at(F(900.0), F(1040.0));
    w.screens[0].workspace = 2;
    let mut s = sheep_on(&mut d, 1, F(1011.0));
    let mut ev = Vec::new();
    s.begin(&p, &w, TILE, 1, &mut ev, &mut d);
    let mut furthest = s.x;
    for _ in 0..200 {
        s.step(&p, &w, TILE, &mut ev, &mut d);
        furthest = furthest.min(s.x);
    }
    assert!(furthest < F(900.0), "a sheep out of sight was stopped by one it cannot meet");
}

#[test]
fn a_companion_is_on_its_parents_workspace() {
    let mut d = Dice::with_seed(7);
    let p = pet();
    let mut w = world();
    // The parent is out of sight, so its bathtub must be too - a tub on
    // the workspace being looked at would be a tub with no sheep in it.
    w.screens[0].workspace = 2;
    let dive = p.by_name("batha").expect("the pet dives into a bath").id;
    let mut s = sheep_on(&mut d, 1, F(900.0));
    s.y = F(200.0);
    let mut ev = Vec::new();
    s.begin(&p, &w, TILE, dive, &mut ev, &mut d);
    let Some(Event::SpawnChild { workspace, .. }) = ev.first() else {
        panic!("the dive did not call on a bathtub: {ev:?}");
    };
    assert_eq!(*workspace, Some(1), "the bathtub was left on another workspace");
}

/// A pointer resting at a point, for a sheep to notice.
fn world_with_the_pointer_at(x: F, y: F) -> World<F> {
    World { pointer: Some((x, y)), ..world() }
}

/// A sheep walking left into a resting pointer is stopped by it every
/// time, unlike another sheep, which it walks past one time in four.
#[test]
fn a_resting_pointer_always_stops_a_sheep_walking_into_it() {
    let mut d = Dice::with_seed(7);
    let p = pet();
    let w = world_with_the_pointer_at(F(900.0), F(1040.0));
    // Nose to it is the pointer's own x: the sheep's leading edge stops
    // there. Only the first encounter is judged - once it has had its
    // look the spot is open again, which is its own test below - and a
    // run that never gets that far is one where the sheep chose to stop
    // walking on the way, which is its own business.
    let mut reached = 0;
    for _ in 0..80 {
        let mut s = sheep(false, &mut d);
        let mut ev = Vec::new();
        s.x = F(1011.0);
        s.y = F(1040.0);
        s.begin(&p, &w, TILE, 1, &mut ev, &mut d);
        for _ in 0..200 {
            s.step(&p, &w, TILE, &mut ev, &mut d);
            if s.met_pointer.is_some() {
                reached += 1;
                break;
            }
            assert!(
                s.x >= F(900.0),
                "a sheep walked through a pointer resting in front of it, to {}",
                s.x
            );
        }
    }
    assert!(reached > 0, "no sheep ever walked as far as the pointer");
}

/// The same test the flock gets: a thing a whole sprite higher up is
/// something the sheep is under, not something in front of its face.
#[test]
fn a_pointer_over_the_sheeps_head_is_not_in_the_way() {
    let mut d = Dice::with_seed(7);
    let p = pet();
    let w = world_with_the_pointer_at(F(900.0), F(970.0));
    for _ in 0..30 {
        assert!(
            approach(&mut d, &p, &w, F(1011.0)) < F(900.0),
            "a pointer resting above the sheep stopped it walking below"
        );
    }
}

/// A pointer in motion is never in the world at all - the host puts it
/// there only once it has held still - so an empty pointer must leave the
/// walk untouched.
#[test]
fn a_pointer_the_host_is_not_offering_does_nothing() {
    let mut d = Dice::with_seed(7);
    let p = pet();
    let w = world();
    for _ in 0..30 {
        assert!(approach(&mut d, &p, &w, F(1011.0)) < F(900.0), "stopped by a pointer that is not there");
    }
}

/// Walking away from a resting pointer within reach, the sheep turns
/// round, comes back, and ends up nose to it.
#[test]
fn a_sheep_walking_away_turns_round_to_come_and_look() {
    let mut d = Dice::with_seed(7);
    let p = pet();
    let w = world_with_the_pointer_at(F(800.0), F(1040.0));
    let mut s = sheep(false, &mut d);
    let mut ev = Vec::new();
    s.x = F(1000.0);
    s.y = F(1040.0);
    // Flipped, `walk` travels right: away from the pointer at 800.
    s.flipped = true;
    s.begin(&p, &w, TILE, 1, &mut ev, &mut d);

    let mut furthest_right = s.x;
    for _ in 0..300 {
        s.step(&p, &w, TILE, &mut ev, &mut d);
        furthest_right = furthest_right.max(s.x);
        if s.x == F(800.0) {
            assert!(
                furthest_right < F(1000.0) + F(POINTER_REACH as f64),
                "the sheep left the pointer's reach before turning back"
            );
            return;
        }
    }
    panic!("walked off and never came back to look: ended at x={}", s.x);
}

/// Nothing drags a sheep across the screen from the far side.
#[test]
fn a_pointer_out_of_reach_is_not_noticed() {
    let mut d = Dice::with_seed(7);
    let p = pet();
    // Well beyond POINTER_REACH of a sheep starting at 1000.
    let w = world_with_the_pointer_at(F(100.0), F(1040.0));
    let mut s = sheep(false, &mut d);
    let mut ev = Vec::new();
    s.x = F(1000.0);
    s.y = F(1040.0);
    s.flipped = true;
    s.begin(&p, &w, TILE, 1, &mut ev, &mut d);
    for _ in 0..20 {
        s.step(&p, &w, TILE, &mut ev, &mut d);
    }
    assert!(s.x > F(1000.0), "a sheep turned back for a pointer far out of reach");
}

/// Once it has had its look the spot is old news, and walked through.
#[test]
fn a_pointer_the_sheep_has_looked_at_stops_being_interesting() {
    let mut d = Dice::with_seed(7);
    let p = pet();
    let w = world_with_the_pointer_at(F(900.0), F(1040.0));
    let mut s = sheep(false, &mut d);
    let mut ev = Vec::new();
    s.x = F(1011.0);
    s.y = F(1040.0);
    s.begin(&p, &w, TILE, 1, &mut ev, &mut d);
    for _ in 0..200 {
        s.step(&p, &w, TILE, &mut ev, &mut d);
    }
    assert_eq!(s.met_pointer, Some((F(900.0), F(1040.0))), "never reached the pointer at all");

    // Set it walking at the same spot again: this time it walks through.
    s.x = F(1011.0);
    s.y = F(1040.0);
    s.flipped = false;
    s.begin(&p, &w, TILE, 1, &mut ev, &mut d);
    let mut furthest = s.x;
    for _ in 0..200 {
        s.step(&p, &w, TILE, &mut ev, &mut d);
        furthest = furthest.min(s.x);
    }
    assert!(furthest < F(900.0), "a pointer it had already looked at stopped it again");
}

/// A sheep asleep, eating or sitting has nowhere to turn to and is not
/// disturbed by the mouse; only one on the move goes over to look.
#[test]
fn a_pointer_does_not_disturb_a_sheep_that_is_not_walking() {
    let mut d = Dice::with_seed(7);
    let p = pet();
    let w = world_with_the_pointer_at(F(900.0), F(1040.0));
    let sleep = p.by_name("sleep2a").expect("the pet has a sleeping animation").id;
    let mut s = sheep(false, &mut d);
    let mut ev = Vec::new();
    s.x = F(1000.0);
    s.y = F(1040.0);
    s.begin(&p, &w, TILE, sleep, &mut ev, &mut d);
    for _ in 0..20 {
        s.step(&p, &w, TILE, &mut ev, &mut d);
        if s.animation != sleep {
            break;
        }
        assert_eq!(s.x, F(1000.0), "a sleeping sheep set off towards the pointer");
    }
}

#[test]
fn a_sheep_in_the_way_turns_another_back_most_of_the_time() {
    let mut d = Dice::with_seed(7);
    let p = pet();
    let w = world_with_a_sheep_at(F(900.0), F(1040.0));

    // Nose to nose is the far sheep's right edge, a tile short of it.
    let (mut stopped, mut through) = (0, 0);
    for _ in 0..80 {
        if approach(&mut d, &p, &w, F(1010.0)) >= F(940.0) { stopped += 1 } else { through += 1 }
    }
    assert!(stopped > 0, "one sheep never noticed another at all");
    assert!(through > 0, "one sheep never walked on past another");
    assert!(stopped > through, "sheep walked past each other more often than not");
}

#[test]
fn a_sheep_a_ledge_higher_is_not_in_the_way() {
    let mut d = Dice::with_seed(7);
    let p = pet();
    // Standing a whole sprite higher: on something, not in front.
    let w = world_with_a_sheep_at(F(900.0), F(1000.0));
    for _ in 0..30 {
        assert!(
            approach(&mut d, &p, &w, F(1010.0)) < F(940.0),
            "a sheep on another level stopped one walking below it"
        );
    }
}

#[test]
fn a_sheep_does_not_walk_into_itself() {
    let mut d = Dice::with_seed(7);
    let p = pet();
    let mut s = sheep(false, &mut d);
    let mut w = world();
    // The sheep's own square, sitting in the flock where it is headed.
    w.flock.push(Rect { id: s.id, x: F(900.0), y: F(1040.0), w: TILE, h: TILE });

    let mut ev = Vec::new();
    s.x = F(1010.0);
    s.y = F(1040.0);
    s.begin(&p, &w, TILE, 1, &mut ev, &mut d);
    let mut furthest = s.x;
    for _ in 0..200 {
        s.step(&p, &w, TILE, &mut ev, &mut d);
        furthest = furthest.min(s.x);
    }
    assert!(furthest < F(940.0), "a sheep was stopped by itself");
}

#[test]
fn a_sheep_stopped_by_another_turns_round_and_walks_off() {
    let mut d = Dice::with_seed(7);
    let p = pet();
    let w = world_with_a_sheep_at(F(900.0), F(1040.0));
    // A meeting turns the sheep back most times but not every time, so
    // approach until one of the approaches is the kind that stops.
    for attempt in 0..100 {
        let mut s = sheep(false, &mut d);
        let mut ev = Vec::new();
        s.x = F(1010.0);
        s.y = F(1040.0);
        s.begin(&p, &w, TILE, 1, &mut ev, &mut d);

        let mut met = false;
        for _ in 0..60 {
            s.step(&p, &w, TILE, &mut ev, &mut d);
            met |= s.x == F(940.0);
            if met && s.flipped {
                // Turned about, and on its way back the other side.
                assert!(s.x >= F(940.0), "walked through the sheep it turned at");
                return;
            }
        }
        assert!(attempt < 99, "never once ended up nose to nose");
    }
}

/// The flock as the host keeps it: two live sheep, each seeing where the
/// other actually is, stepped together for a long while.
#[test]
fn two_sheep_sharing_a_floor_keep_moving() {
    let mut d = Dice::with_seed(7);
    let p = pet();
    let mut w = world();
    let mut ev = Vec::new();
    let mut flock = [sheep(false, &mut d), sheep(false, &mut d)];
    for (s, x) in flock.iter_mut().zip([F(600.0), F(900.0)]) {
        s.x = x;
        s.y = F(1040.0);
        s.begin(&p, &w, TILE, 1, &mut ev, &mut d);
    }

    let mut ground = [F(0.0), F(0.0)];
    for _ in 0..4000 {
        w.flock = flock.iter().map(|s| s.bounds(TILE)).collect();
        for (s, covered) in flock.iter_mut().zip(ground.iter_mut()) {
            let was = s.x;
            s.step(&p, &w, TILE, &mut ev, &mut d);
            *covered += (s.x - was).abs();
            assert!(s.x.is_finite() && s.y.is_finite(), "position went non-finite");
        }
        ev.retain(|e| *e != Event::Died);
    }
    for covered in ground {
        assert!(covered > F(1000.0), "a sheep spent the run pinned against the other");
    }
}

#[test]
fn climbing_a_window_side_tops_out_on_its_ledge() {
    let mut d = Dice::with_seed(7);
    let p = pet();
    let w = world_with_a_tall_window();
    // Both faces: the sheep climbs whichever one it walked into.
    for (name, x) in [("right", F(1000.0)), ("left", F(160.0))] {
        let mut s = sheep(false, &mut d);
        s.climb_windows = true;
        let mut ev = Vec::new();
        s.x = x;
        s.y = F(700.0);
        // vertical_walk_up, which is where a border on a face leads.
        s.begin(&p, &w, TILE, 37, &mut ev, &mut d);

        let mut topped_out = false;
        for _ in 0..80 {
            s.step(&p, &w, TILE, &mut ev, &mut d);
            if s.resting_on == Some(5) {
                topped_out = true;
                break;
            }
        }
        assert!(topped_out, "climbing the {name} face ended at ({}, {})", s.x, s.y);
        assert_eq!(s.y + TILE, F(600.0), "{name}: feet are not on the window's top edge");
        assert_eq!(
            s.standing_on(&w, TILE),
            Some(5),
            "{name}: topped out beside the ledge rather than on it, at x={}",
            s.x
        );
    }
}

/// Only a face the sheep has just crossed stops it, so one that finds
/// itself inside a window - dropped there, or the window opened around it -
/// walks out rather than being shoved to the nearest edge.
#[test]
fn a_sheep_already_inside_a_window_is_not_trapped() {
    let mut d = Dice::with_seed(7);
    let w = world_with_a_tall_window();
    let mut s = sheep(false, &mut d);
    s.climb_windows = true;
    s.y = F(1040.0);

    s.x = F(600.0);
    assert_eq!(s.window_side(&w, TILE, -F(2.0)), None, "shoved out of a window going left");
    assert_eq!(s.window_side(&w, TILE, F(2.0)), None, "shoved out of a window going right");

    // Just inside a face, though, is a sheep that walked into it.
    s.x = F(995.0);
    assert_eq!(s.window_side(&w, TILE, -F(2.0)), Some((5, F(1000.0))));
    s.x = F(165.0);
    assert_eq!(s.window_side(&w, TILE, F(2.0)), Some((5, F(160.0))));
    // And a sheep on the ledge above is beside nothing at all.
    s.y = F(560.0);
    s.x = F(995.0);
    assert_eq!(s.window_side(&w, TILE, -F(2.0)), None, "a ledge is not a face");

    // A scaled sheep takes proportionally longer strides, so what counts
    // as having just crossed a face grows with it.
    s.y = F(1040.0);
    s.x = F(960.0);
    assert_eq!(s.window_side(&w, TILE, -F(2.0)), None, "walked out of a window it was inside");
    s.scale = F(4.0);
    assert_eq!(s.window_side(&w, TILE, -F(2.0)), Some((5, F(1000.0))), "a big sheep walked through it");
}

#[test]
fn a_gap_below_an_adjacent_monitor_is_a_wall() {
    let mut d = Dice::with_seed(7);
    let p = pet();
    // The second monitor is short, so the floor of the first has nothing
    // beside it; the sheep must not walk into the void.
    let w = World {
        screens: vec![screen(0, F(0.0), F(1920.0), F(1080.0)), screen(1, F(1920.0), F(960.0), F(540.0))],
        windows: vec![],
        flock: vec![],
        pointer: None,
    };
    let mut s = sheep(false, &mut d);
    let mut ev = Vec::new();
    s.x = F(1900.0);
    s.y = F(1040.0);
    s.flipped = true;
    s.begin(&p, &w, TILE, 1, &mut ev, &mut d);

    for _ in 0..300 {
        s.step(&p, &w, TILE, &mut ev, &mut d);
        // Past the seam is allowed only up on the short monitor, which the
        // sheep can reach by climbing; beside it there is nothing to stand
        // on and nothing to step onto.
        if s.x > F(1880.0) {
            let feet = s.y + TILE;
            assert!(feet <= F(542.0), "sheep walked off into the gap (x={}, feet={})", s.x, feet);
        }
    }
}

/// A sideways T: a wide monitor on the left, centred against a tall one on
/// the right. The tall screen's left edge is a wall only below the wide
/// screen's floor; above that line the sheep steps out onto it instead of
/// climbing the rest of the edge.
#[test]
fn climbing_an_edge_steps_onto_the_monitor_beside_it() {
    let mut d = Dice::with_seed(7);
    let p = pet();
    let mut wide = screen(0, F(0.0), F(1920.0), F(1080.0));
    wide.y = F(500.0);
    let w = World {
        screens: vec![wide, screen(1, F(1920.0), F(1440.0), F(2560.0))],
        windows: vec![],
        flock: vec![],
        pointer: None,
    };
    let mut s = sheep(false, &mut d);
    let mut ev = Vec::new();
    // Hugging the tall screen's left edge, climbing, a little below the
    // wide screen's floor at y = 1580.
    s.x = F(1920.0);
    s.y = F(1600.0) - TILE;
    s.begin(&p, &w, TILE, 37, &mut ev, &mut d);

    let mut arrived = false;
    for _ in 0..40 {
        s.step(&p, &w, TILE, &mut ev, &mut d);
        if s.screen(&w, TILE).id == 0 {
            assert_eq!(s.y + TILE, F(1580.0), "stepped across but not onto the floor");
            assert!(s.x < F(1880.0), "topped out beside the floor, at x={}", s.x);
            // The climb's own border transition is the top of the screen,
            // where the sheep flips over and walks the ceiling. Arriving
            // on ground has to end the climb the way climbing down does.
            assert_eq!(
                Some(s.animation),
                p.landing_animation(),
                "came onto the floor with the animation for the top of the screen"
            );
            arrived = true;
            break;
        }
    }
    assert!(arrived, "climbed past the monitor beside it (x={}, y={})", s.x, s.y);

    // And it stays there: upside down on a ceiling that is not there, the
    // sheep used to walk straight back out over the tall screen.
    for _ in 0..60 {
        s.step(&p, &w, TILE, &mut ev, &mut d);
        assert!(
            s.x < F(1920.0) || s.y + TILE > F(1582.0),
            "drifted out over the tall screen at ({}, {}) in anim {}",
            s.x,
            s.y,
            s.animation
        );
    }
}

#[test]
fn expressions_are_evaluated_per_screen() {
    let mut d = Dice::with_seed(7);
    let p = pet();
    let w = two_screens();
    // Spawning many times must always place the sheep near some monitor,
    // never at a coordinate derived from the wrong one.
    let mut on_second = 0;
    for _ in 0..400 {
        let mut s = sheep(false, &mut d);
        let mut ev = Vec::new();
        s.spawn(&p, &w, TILE, &mut ev, &mut d);
        let sc = s.screen(&w, TILE);
        // Spawns sit at or just outside an edge of their own monitor.
        assert!(
            s.x >= sc.x - TILE * F(2.0) && s.x <= sc.right() + TILE * F(2.0),
            "spawned at x={} for monitor at {}..{}",
            s.x,
            sc.x,
            sc.right()
        );
        assert!(s.y <= sc.bottom(), "spawned below monitor bottom: y={}", s.y);
        if sc.id == 1 {
            on_second += 1;
        }
    }
    assert!(on_second > 50, "only {on_second}/400 spawns on the second monitor");
}

/// A monitor taller than its neighbour is centred against it, so Hyprland
/// places it at a negative y. Windows in its top band then have a negative
/// landing coordinate, which the "is the sheep on screen?" test used to
/// read as off screen and refuse — leaving the biggest window on the
/// monitor with no landable top edge at all.
#[test]
fn a_window_high_on_a_monitor_above_the_origin_is_landable() {
    let mut d = Dice::with_seed(7);
    let p = pet();
    // DP-2 as Hyprland reports it: 1440x2560 at (3840, -400).
    let w = World {
        screens: vec![Screen {
            id: 0,
            x: F(3840.0),
            y: -F(400.0),
            w: F(1440.0),
            h: F(2560.0),
            reserved: (F(0.0), F(0.0), F(0.0), F(0.0)),
            workspace: 1,
        }],
        windows: vec![Rect { id: 9, x: F(3858.0), y: -F(26.0), w: F(1404.0), h: F(1242.0) }],
        flock: vec![],
        pointer: None,
    };
    let mut s = sheep(false, &mut d);
    let mut ev = Vec::new();
    s.x = F(4500.0);
    s.y = -F(300.0);
    for _ in 0..80 {
        s.step(&p, &w, TILE, &mut ev, &mut d);
        if s.resting_on == Some(9) {
            assert_eq!(s.y, -F(66.0), "landed, but not on the window's top edge");
            return;
        }
    }
    panic!("fell straight past a window at y={} (ended at y={})", -F(26.0), s.y);
}

#[test]
fn each_screen_has_its_own_floor() {
    let mut d = Dice::with_seed(7);
    let w = World {
        screens: vec![screen(0, F(0.0), F(1920.0), F(1080.0)), screen(1, F(1920.0), F(960.0), F(540.0))],
        windows: vec![],
        flock: vec![],
        pointer: None,
    };
    let mut tall = sheep(false, &mut d);
    tall.x = F(100.0);
    tall.y = F(100.0);
    assert_eq!(tall.screen(&w, TILE).floor(), F(1080.0));

    let mut short = sheep(false, &mut d);
    short.x = F(2000.0);
    short.y = F(100.0);
    assert_eq!(short.screen(&w, TILE).floor(), F(540.0));
}

/// Starting in any animation must run without panicking or wedging.
#[test]
fn every_animation_can_be_entered_and_run() {
    let mut d = Dice::with_seed(7);
    let p = pet();
    let mut w = two_screens();
    w.windows.push(Rect { id: 1, x: F(200.0), y: F(500.0), w: F(700.0), h: F(500.0) });
    w.windows.push(Rect { id: 2, x: F(1000.0), y: F(42.0), w: F(600.0), h: F(900.0) });

    for id in 1..=63u32 {
        let mut s = sheep(false, &mut d);
        let mut ev = Vec::new();
        s.x = F(600.0);
        s.y = F(300.0);
        s.begin(&p, &w, TILE, id, &mut ev, &mut d);
        for _ in 0..3000 {
            ev.clear();
            let ms = s.step(&p, &w, TILE, &mut ev, &mut d);
            assert!(ms >= 10, "anim {id}: implausible delay {ms}");
            assert!(s.x.is_finite() && s.y.is_finite(), "anim {id}: position diverged");
            assert!(p.get(s.animation).is_some(), "anim {id}: entered unknown animation");
            assert!((F(0.0)..=F(1.0)).contains(&s.opacity), "anim {id}: opacity {}", s.opacity);
        }
    }
}

/// `drag` is entered only by the mouse, and nothing ever asks for `kill` or
/// `sync`. Everything else must be reachable by simply letting the sheep run.
#[test]
fn every_other_animation_is_reachable_from_a_spawn() {
    let p = pet();
    let mut seen = std::collections::HashSet::new();
    let mut stack: Vec<u32> = p.spawns.iter().map(|s| s.next).collect();
    while let Some(id) = stack.pop() {
        if !seen.insert(id) {
            continue;
        }
        let a = p.get(id).unwrap();
        stack.extend(a.next.iter().chain(&a.border).chain(&a.gravity).map(|n| n.target));
        stack.extend(p.children.iter().filter(|c| c.animation_id == id).map(|c| c.next));
    }

    let orphans: Vec<&str> = (1..=63u32)
        .filter(|i| !seen.contains(i))
        .map(|i| p.get(i).unwrap().name.as_str())
        .collect();
    assert_eq!(orphans, vec!["drag", "kill", "sync"], "reachability changed");
    assert!(p.by_name("drag").is_some(), "drag must still be reachable by name");
}

/// The two rare spawn points start long chains, each of which brings on a
/// companion. They sit behind weights of 3 in 106, so ordinary play rarely
/// reaches them.
#[test]
fn the_rare_chains_run_their_course() {
    let mut d = Dice::with_seed(7);
    let p = pet();
    let w = world();
    // batha brings on the bathtub and ends by rejoining ordinary life;
    // blacksheepa brings on the second sheep.
    for (start, companion, expected) in
        [(21u32, 23u32, vec![22u32, 47, 48]), (28, 31, vec![29, 30])]
    {
        let mut s = sheep(false, &mut d);
        let mut ev = Vec::new();
        s.x = F(800.0);
        s.y = F(1040.0);
        s.begin(&p, &w, TILE, start, &mut ev, &mut d);
        assert!(
            ev.iter().any(|e| matches!(e, Event::SpawnChild { animation, .. }
                if *animation == companion)),
            "anim {start} should bring on companion {companion}, got {ev:?}"
        );

        let mut visited = std::collections::HashSet::new();
        for _ in 0..40_000 {
            s.step(&p, &w, TILE, &mut ev, &mut d);
            visited.insert(s.animation);
        }
        for id in expected {
            assert!(visited.contains(&id), "chain from {start} never reached {id}");
        }
    }
}

/// Each companion runs its own short chain and then dies. The bathtub is
/// the clearest case: it fills, then stops for good.
#[test]
fn the_dive_into_the_bath_is_not_caught_on_a_window() {
    let mut d = Dice::with_seed(7);
    let p = pet();
    let mut w = world();
    w.windows.push(Rect { id: 1, x: F(200.0), y: F(600.0), w: F(900.0), h: F(400.0) });
    let mut s = sheep(false, &mut d);
    s.climb_windows = true;
    let mut ev = Vec::new();
    s.x = F(900.0);
    s.y = F(200.0);
    // 21 (batha) is the dive: down and to the left, for a distance of its
    // own working out, and with no <border> table to be stopped by.
    s.begin(&p, &w, TILE, 21, &mut ev, &mut d);

    // A dive long enough to reach the floor is held there, which is right:
    // the floor is a border the file was written against. Anywhere above
    // it the sheep should still be descending.
    let floor = w.screens[0].floor() - TILE;
    let mut pinned = 0;
    let mut last_y = s.y;
    while p.get(s.animation).unwrap().name == "batha" {
        s.step(&p, &w, TILE, &mut ev, &mut d);
        if s.y == last_y && s.y < floor - F(2.0) {
            pinned += 1;
        }
        last_y = s.y;
        assert!(s.resting_on.is_none(), "the dive landed on a window");
    }
    assert_eq!(pinned, 0, "the dive stopped descending {pinned} steps early");
    // It carried on past the window and down to the floor.
    assert!(s.y > F(600.0), "the dive never got below the window, y {}", s.y);
}

#[test]
fn a_window_top_is_still_a_ledge_for_anything_that_asks() {
    let mut d = Dice::with_seed(7);
    let p = pet();
    let mut w = world();
    w.windows.push(Rect { id: 1, x: F(200.0), y: F(600.0), w: F(900.0), h: F(400.0) });
    let mut s = sheep(false, &mut d);
    let mut ev = Vec::new();
    s.x = F(700.0);
    s.y = F(400.0);
    // `fall` does declare a <border>, so it lands as it always has.
    s.begin(&p, &w, TILE, p.fall_animation().unwrap(), &mut ev, &mut d);
    for _ in 0..60 {
        s.step(&p, &w, TILE, &mut ev, &mut d);
        if s.resting_on == Some(1) {
            assert_eq!(s.y, F(560.0), "landed somewhere other than the ledge");
            return;
        }
    }
    panic!("a falling sheep no longer lands on a window, y {}", s.y);
}

#[test]
fn the_bathtub_fills_and_then_finishes() {
    let mut d = Dice::with_seed(7);
    let p = pet();
    let w = world();
    let mut tub = sheep(true, &mut d);
    let mut ev = Vec::new();
    tub.x = F(800.0);
    tub.y = F(1040.0);
    tub.begin(&p, &w, TILE, 23, &mut ev, &mut d);

    let mut visited = std::collections::HashSet::new();
    for _ in 0..40_000 {
        ev.clear();
        tub.step(&p, &w, TILE, &mut ev, &mut d);
        visited.insert(tub.animation);
        if ev.contains(&Event::Died) {
            assert!(visited.contains(&24), "tub died without reaching bathz");
            return;
        }
    }
    panic!("bathtub never finished (reached {visited:?})");
}

/// The companion sheep of the black-sheep encounter must run its own
/// chain and then die, rather than respawning like an ordinary sheep.
#[test]
fn the_companion_sheep_runs_its_chain_and_dies() {
    let mut d = Dice::with_seed(7);
    let p = pet();
    let w = world();
    let mut child = sheep(true, &mut d);
    let mut ev = Vec::new();
    child.x = F(700.0);
    child.y = F(1040.0);
    child.begin(&p, &w, TILE, 31, &mut ev, &mut d);

    let mut visited = std::collections::HashSet::new();
    for _ in 0..20_000 {
        ev.clear();
        child.step(&p, &w, TILE, &mut ev, &mut d);
        visited.insert(child.animation);
        if ev.contains(&Event::Died) {
            assert!(visited.len() > 1, "died without running its chain");
            return;
        }
    }
    panic!("companion never finished (reached {visited:?})");
}

#[test]
fn dragging_freezes_physics() {
    let mut d = Dice::with_seed(7);
    let p = pet();
    let w = world();
    let mut s = sheep(false, &mut d);
    let mut ev = Vec::new();
    s.spawn(&p, &w, TILE, &mut ev, &mut d);
    s.grab(&p, &w, TILE, &mut d);
    assert_eq!(p.get(s.animation).unwrap().name, "drag");

    s.drag_to(F(500.0), F(500.0), TILE);
    let (x, y) = (s.x, s.y);
    for _ in 0..50 {
        assert_eq!(s.step(&p, &w, TILE, &mut ev, &mut d), DRAG_INTERVAL);
    }
    assert_eq!((s.x, s.y), (x, y), "position moved while dragged");

    s.release(&p, &w, TILE, F(0.0), F(0.0), &mut ev, &mut d);
    s.step(&p, &w, TILE, &mut ev, &mut d);
    assert_ne!(p.get(s.animation).unwrap().name, "drag", "drag never ended");
}

#[test]
fn letting_go_of_a_still_mouse_drops_the_sheep() {
    let mut d = Dice::with_seed(7);
    let p = pet();
    let w = world();
    let mut s = sheep(false, &mut d);
    let mut ev = Vec::new();
    s.spawn(&p, &w, TILE, &mut ev, &mut d);
    s.grab(&p, &w, TILE, &mut d);
    s.drag_to(F(500.0), F(300.0), TILE);
    s.release(&p, &w, TILE, F(0.0), F(0.0), &mut ev, &mut d);

    let x = s.x;
    for _ in 0..20 {
        s.step(&p, &w, TILE, &mut ev, &mut d);
    }
    assert!(s.y > F(300.0), "a dropped sheep should fall, got y {}", s.y);
    assert!((s.x - x).abs() < F(40.0), "a dropped sheep should not fly sideways");
}

#[test]
fn a_flick_throws_the_sheep_and_it_lands() {
    let mut d = Dice::with_seed(7);
    let p = pet();
    let w = world();
    let mut s = sheep(false, &mut d);
    let mut ev = Vec::new();
    s.spawn(&p, &w, TILE, &mut ev, &mut d);
    s.grab(&p, &w, TILE, &mut d);
    s.drag_to(F(500.0), F(300.0), TILE);
    // Let go travelling up and to the right.
    s.release(&p, &w, TILE, F(1200.0), -F(600.0), &mut ev, &mut d);
    assert_eq!(p.get(s.animation).unwrap().name, "fall");
    assert!(!s.flipped, "a sheep thrown right should face right");

    let start = (s.x, s.y);
    s.step(&p, &w, TILE, &mut ev, &mut d);
    assert!(s.y < start.1, "a sheep thrown upwards should rise first");

    let mut highest = s.y;
    let mut steps = 0;
    while s.toss.is_some() && steps < 500 {
        s.step(&p, &w, TILE, &mut ev, &mut d);
        highest = highest.min(s.y);
        steps += 1;
    }
    assert!(s.toss.is_none(), "the throw never ended");
    assert!(highest < start.1 - F(40.0), "the arc never went anywhere");
    assert!(s.x > start.0 + F(100.0), "the sheep was not carried to the right");
    // It ends on the floor, in whatever the pet file says landing is.
    assert!(s.y >= w.screens[0].floor() - TILE - F(2.0), "it did not come down, y {}", s.y);
}

#[test]
fn speed_leaves_a_throw_alone() {
    let p = pet();
    let w = world();
    let arc = |speed: F| {
        let mut d = Dice::with_seed(7);
        let mut s = sheep(false, &mut d);
        let mut ev = Vec::new();
        s.speed = speed;
        s.begin(&p, &w, TILE, 1, &mut ev, &mut d);
        s.x = F(300.0);
        s.y = F(400.0);
        s.grab(&p, &w, TILE, &mut d);
        s.release(&p, &w, TILE, F(900.0), -F(300.0), &mut ev, &mut d);
        let mut flight = 0;
        while s.toss.is_some() && flight < 10_000 {
            flight += s.step(&p, &w, TILE, &mut ev, &mut d);
        }
        (s.x, s.y, flight)
    };
    // Same arc, and the same time taken over it, however fast the sheep
    // is otherwise living.
    assert_eq!(arc(F(1.0)), arc(F(4.0)));
    assert_eq!(arc(F(1.0)), arc(F(0.25)));
}

#[test]
fn a_throw_is_capped_but_keeps_its_direction() {
    let mut d = Dice::with_seed(7);
    let p = pet();
    let w = world();
    let mut s = sheep(false, &mut d);
    let mut ev = Vec::new();
    s.spawn(&p, &w, TILE, &mut ev, &mut d);
    s.grab(&p, &w, TILE, &mut d);
    s.drag_to(F(900.0), F(400.0), TILE);
    s.release(&p, &w, TILE, -F(9000.0), -F(9000.0), &mut ev, &mut d);

    let (vx, vy) = s.toss.expect("a hard flick is still a throw");
    assert!(vx.hypot(vy) <= F(TOSS_MAX as f64) + F(1.0), "the throw was not capped");
    assert!((vx - vy).abs() < F(1.0), "the aim was not kept");
    assert!(s.flipped, "a sheep thrown left should face left");
}

#[test]
fn picking_a_thrown_sheep_out_of_the_air_ends_the_throw() {
    let mut d = Dice::with_seed(7);
    let p = pet();
    let w = world();
    let mut s = sheep(false, &mut d);
    let mut ev = Vec::new();
    s.spawn(&p, &w, TILE, &mut ev, &mut d);
    s.grab(&p, &w, TILE, &mut d);
    s.drag_to(F(500.0), F(300.0), TILE);
    s.release(&p, &w, TILE, F(1500.0), F(0.0), &mut ev, &mut d);
    s.step(&p, &w, TILE, &mut ev, &mut d);

    s.grab(&p, &w, TILE, &mut d);
    assert!(s.toss.is_none(), "a caught sheep is not still in flight");
    let (x, y) = (s.x, s.y);
    for _ in 0..20 {
        s.step(&p, &w, TILE, &mut ev, &mut d);
    }
    assert_eq!((s.x, s.y), (x, y), "a caught sheep moved on its own");
}

/// The bathtub does not watch the sheep come down; it counts out the
/// steps of the dive and splashes when they run out. The dive's length is
/// decided by the diver's `randS`, so the tub has to be counting with the
/// same number, or it splashes before the sheep is in it.
#[test]
fn the_splash_waits_for_the_sheep_to_land() {
    let mut d = Dice::with_seed(7);
    let p = pet();
    let w = world();
    let mut delays = Vec::new();
    for rand_s in [F(0.0), F(7.0), F(23.0), F(50.0), F(84.0), F(99.0)] {
        let mut ev = Vec::new();

        // Spawn 3: in from the right, partway down a screen whose height
        // this sheep's randS decides.
        let mut diver = sheep(false, &mut d);
        diver.set_rand_s(rand_s);
        diver.x = F(1930.0);
        diver.y = F(1080.0) / F(2.0) - (rand_s * F(540.0)) / F(120.0) - TILE;
        diver.begin(&p, &w, TILE, 21, &mut ev, &mut d);

        let Some(&Event::SpawnChild { animation, x, y, rand_s: childs, .. }) = ev.first()
        else {
            panic!("the dive did not call on a bathtub: {ev:?}");
        };
        let mut tub = sheep(true, &mut d);
        tub.set_rand_s(childs);
        tub.x = x;
        tub.y = y;
        ev.clear();
        tub.begin(&p, &w, TILE, animation, &mut ev, &mut d);

        // Both run at 30ms a step, so they step together.
        let mut landed = None;
        let mut steps = 0;
        while p.get(tub.animation).unwrap().name != "bathz" && steps < 4000 {
            diver.step(&p, &w, TILE, &mut ev, &mut d);
            tub.step(&p, &w, TILE, &mut ev, &mut d);
            steps += 1;
            if landed.is_none() && p.get(diver.animation).unwrap().name != "batha" {
                landed = Some(steps);
            }
        }
        assert_eq!(p.get(tub.animation).unwrap().name, "bathz", "randS {rand_s}: no splash");
        let landed =
            landed.unwrap_or_else(|| panic!("randS {rand_s}: the tub splashed mid-dive"));
        delays.push(steps - landed);
    }

    // However far the sheep had to fall, the water breaks the same number
    // of steps into its arrival.
    assert!(
        delays.windows(2).all(|d| d[0] == d[1]),
        "the splash drifts with randS: {delays:?}"
    );
}

/// The black-sheep meeting is two walks timed to end nose to nose in the
/// middle of the screen. The distance each has to cover is a screen width,
/// which does not change with the sheep, so neither should the meeting.
#[test]
fn the_two_sheep_meet_in_the_middle_at_any_size() {
    let mut d = Dice::with_seed(7);
    let p = pet();
    let w = world();
    for scale in [F(0.5), F(1.0), F(2.0), F(3.0)] {
        let tile = TILE * scale;
        let mut ev = Vec::new();

        // The white sheep arrives from the right (spawn 4), the black one
        // from off the left edge, where the <child> entry puts it.
        let mut white = sheep(false, &mut d);
        white.scale = scale;
        white.flipped = false;
        white.x = F(1920.0);
        white.y = F(1080.0) - tile;
        white.begin(&p, &w, tile, 28, &mut ev, &mut d);

        let mut black = sheep(true, &mut d);
        black.scale = scale;
        black.x = -tile;
        black.y = white.y;
        black.begin(&p, &w, tile, 31, &mut ev, &mut d);

        // Walk them both until each settles into its greeting.
        for _ in 0..5000 {
            if p.get(white.animation).unwrap().name != "blacksheepc" {
                white.step(&p, &w, tile, &mut ev, &mut d);
            }
            if p.get(black.animation).unwrap().name != "blacksheepy" {
                black.step(&p, &w, tile, &mut ev, &mut d);
            }
        }
        assert_eq!(p.get(white.animation).unwrap().name, "blacksheepc");
        assert_eq!(p.get(black.animation).unwrap().name, "blacksheepy");

        // Nose to nose: the black sheep to the left, about a sheep apart,
        // and the pair of them near the middle of the screen.
        let gap = white.x - black.x;
        assert!(
            (F(0.0)..F(480.0)).contains(&gap),
            "scale {scale}: the sheep ended {gap} apart, not nose to nose"
        );
        let middle = (white.x + black.x) / F(2.0) + tile / F(2.0);
        assert!(
            (middle - F(960.0)).abs() < tile * F(2.0),
            "scale {scale}: they met at {middle}, not in the middle"
        );
    }
}

/// The flower belongs in front of the sheep's nose, whichever way round
/// it came to eat.
#[test]
fn the_flower_is_on_the_side_the_sheep_is_facing() {
    let mut d = Dice::with_seed(7);
    let p = pet();
    let w = world();
    let eat = p.by_name("eat").expect("the pet eats").id;

    let mut left = sheep(false, &mut d);
    let mut ev = Vec::new();
    left.x = F(900.0);
    left.y = F(1040.0);
    left.flipped = false;
    left.begin(&p, &w, TILE, eat, &mut ev, &mut d);
    let Some(&Event::SpawnChild { x: facing_left, .. }) = ev.first() else {
        panic!("eat should spawn the flower, got {ev:?}");
    };
    assert!(facing_left < left.x, "the flower sprouted behind a sheep facing left");

    let mut right = sheep(false, &mut d);
    ev.clear();
    right.x = F(900.0);
    right.y = F(1040.0);
    right.flipped = true;
    right.begin(&p, &w, TILE, eat, &mut ev, &mut d);
    let Some(&Event::SpawnChild { x: facing_right, .. }) = ev.first() else {
        panic!("eat should spawn the flower, got {ev:?}");
    };
    assert!(
        facing_right > right.x,
        "the flower sprouted behind a sheep facing right, at {facing_right}"
    );

    // Mirrored, so the same distance from the nose either way round. The
    // spawn point is a corner, so the two are compared centre to centre.
    let centre = right.x + TILE / F(2.0);
    let (l, r) = (facing_left + TILE / F(2.0) - centre, facing_right + TILE / F(2.0) - centre);
    assert!(
        (l + r).abs() < F(0.000001),
        "the flower sits closer on one side: {l} away and {r} away"
    );
}

/// A companion that belongs at a place on the screen rather than beside
/// the sheep stays put when the sheep is facing the other way.
#[test]
fn a_screen_placed_companion_is_not_mirrored() {
    let p = pet();
    let w = world();
    let bath = p.by_name("batha").expect("the pet takes a bath").id;
    let place = |flipped| {
        let mut d = Dice::with_seed(7);
        let mut s = sheep(false, &mut d);
        let mut ev = Vec::new();
        s.x = F(900.0);
        s.y = F(1040.0);
        s.flipped = flipped;
        // The bath's place is drawn from randS: the same for both sheep,
        // so that only the facing differs.
        s.rand_s = F(60.0);
        s.begin(&p, &w, TILE, bath, &mut ev, &mut d);
        match ev.first() {
            Some(&Event::SpawnChild { x, .. }) => x,
            _ => panic!("batha should spawn the bath, got {ev:?}"),
        }
    };
    assert_eq!(place(false), place(true), "the bath moved with the sheep");
}

#[test]
fn children_are_spawned_and_die() {
    let mut d = Dice::with_seed(7);
    let p = pet();
    let w = world();
    let mut s = sheep(false, &mut d);
    let mut ev = Vec::new();
    // Animation 26 (eat) declares a companion flower.
    s.begin(&p, &w, TILE, 26, &mut ev, &mut d);
    assert!(
        matches!(ev.first(), Some(Event::SpawnChild { animation: 27, .. })),
        "eat should spawn the flower, got {ev:?}"
    );

    // The flower is terminal, so a child running it must report Died.
    let mut child = sheep(true, &mut d);
    ev.clear();
    child.begin(&p, &w, TILE, 27, &mut ev, &mut d);
    for _ in 0..5000 {
        child.step(&p, &w, TILE, &mut ev, &mut d);
        if ev.contains(&Event::Died) {
            return;
        }
    }
    panic!("terminal child never died");
}
