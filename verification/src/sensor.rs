//! The motion sensors: where the sensor service offers them, and what their
//! readings mean.
use crate::double::number::Double;
use vstd::prelude::*;

verus! {

/// The bus name of the sensor service.
pub const SERVICE: &'static str = "com.nokia.SensorService";

/// The object and the interface that sessions are requested from.
pub const MANAGER_PATH: &'static str = "/SensorManager";

pub const MANAGER_INTERFACE: &'static str = "local.SensorManager";

/// The signal that carries new readings.
pub const DATA_SIGNAL: &'static str = "dataAvailable";

#[derive(Clone, Copy, Debug)]
pub enum Sensor {
    Accelerometer,
    Gyroscope,
}

impl Sensor {
    pub open spec fn id(self) -> &'static str {
        match self {
            Sensor::Accelerometer => "accelerometersensor",
            Sensor::Gyroscope => "gyroscopesensor",
        }
    }

    pub open spec fn object(self) -> &'static str {
        match self {
            Sensor::Accelerometer => "/SensorManager/accelerometersensor",
            Sensor::Gyroscope => "/SensorManager/gyroscopesensor",
        }
    }

    pub open spec fn face(self) -> &'static str {
        match self {
            Sensor::Accelerometer => "local.AccelerometerSensor",
            Sensor::Gyroscope => "local.GyroscopeSensor",
        }
    }

    /// The name under which a session is requested.
    pub fn name(self) -> (r: &'static str)
        ensures
            r == self.id(),
    {
        match self {
            Sensor::Accelerometer => "accelerometersensor",
            Sensor::Gyroscope => "gyroscopesensor",
        }
    }

    /// The path of the sensor's object.
    pub fn path(self) -> (r: &'static str)
        ensures
            r == self.object(),
    {
        match self {
            Sensor::Accelerometer => "/SensorManager/accelerometersensor",
            Sensor::Gyroscope => "/SensorManager/gyroscopesensor",
        }
    }

    /// The interface of the sensor's object.
    pub fn interface(self) -> (r: &'static str)
        ensures
            r == self.face(),
    {
        match self {
            Sensor::Accelerometer => "local.AccelerometerSensor",
            Sensor::Gyroscope => "local.GyroscopeSensor",
        }
    }
}

/// Three components along the axes of the device.
#[derive(Clone, Copy, Debug)]
pub struct Vector {
    pub x: Double,
    pub y: Double,
    pub z: Double,
}

/// What a sensor reports: thousandths of G from the accelerometer, thousandths
/// of a degree per second from the gyroscope.
#[derive(Clone, Copy, Debug)]
pub struct Reading {
    /// In microseconds.
    pub timestamp_us: u64,
    pub raw: Vector,
}

impl Vector {
    pub open spec fn times(self, factor: Double) -> Vector {
        Vector { x: self.x * factor, y: self.y * factor, z: self.z * factor }
    }

    pub open spec fn minus(self, other: Vector) -> Vector {
        Vector { x: self.x - other.x, y: self.y - other.y, z: self.z - other.z }
    }

    /// The length.
    pub open spec fn length(self) -> Double {
        (self.x * self.x + self.y * self.y + self.z * self.z).sqrt()
    }

    /// One step of a low-pass filter that keeps the part `alpha` of `self` and
    /// takes the rest from `next`.
    pub open spec fn filtered(self, alpha: Double, next: Vector) -> Vector {
        let rest = Double::ratio(1, 1) - alpha;
        Vector {
            x: alpha * self.x + rest * next.x,
            y: alpha * self.y + rest * next.y,
            z: alpha * self.z + rest * next.z,
        }
    }

    #[verifier::when_used_as_spec(times)]
    pub fn scaled(self, factor: Double) -> (r: Vector)
        ensures
            r == self.times(factor),
    {
        Vector { x: self.x * factor, y: self.y * factor, z: self.z * factor }
    }

    #[verifier::when_used_as_spec(minus)]
    pub fn without(self, other: Vector) -> (r: Vector)
        ensures
            r == self.minus(other),
    {
        Vector { x: self.x - other.x, y: self.y - other.y, z: self.z - other.z }
    }

    #[verifier::when_used_as_spec(length)]
    pub fn norm(self) -> (r: Double)
        ensures
            r == self.length(),
    {
        (self.x * self.x + self.y * self.y + self.z * self.z).sqrt()
    }

    #[verifier::when_used_as_spec(filtered)]
    pub fn low_pass(self, alpha: Double, next: Vector) -> (r: Vector)
        ensures
            r == self.filtered(alpha, next),
    {
        let rest: Double = Double::ratio(1, 1) - alpha;
        Vector {
            x: alpha * self.x + rest * next.x,
            y: alpha * self.y + rest * next.y,
            z: alpha * self.z + rest * next.z,
        }
    }
}

impl Reading {
    /// The acceleration in metres per second squared.
    pub open spec fn in_ms2(self) -> Vector {
        self.raw.scaled(Double::ratio(981, 100) / Double::ratio(1000, 1))
    }

    /// The rate of turning in radians per second.
    pub open spec fn in_rads(self) -> Double {
        self.raw.scaled(
            Double::ratio(3_141_592_653_589_793, 1_000_000_000_000_000) / Double::ratio(180_000, 1),
        ).norm()
    }

    #[verifier::when_used_as_spec(in_ms2)]
    pub fn acceleration(self) -> (r: Vector)
        ensures
            r == self.in_ms2(),
    {
        self.raw.scaled(Double::ratio(981, 100) / Double::ratio(1000, 1))
    }

    #[verifier::when_used_as_spec(in_rads)]
    pub fn turn_rate(self) -> (r: Double)
        ensures
            r == self.in_rads(),
    {
        self.raw.scaled(
            Double::ratio(3_141_592_653_589_793, 1_000_000_000_000_000) / Double::ratio(180_000, 1),
        ).norm()
    }
}

} // verus!
